//! User accounts: request bodies and the password policy.
use crate::api::error::{bad_request, err_of, ApiError};
use crate::api::repos::{first_of, opt_string_error, string_error, validate_string};
use crate::api::settings::opt_bad_request;
use crate::text::{chars_of, utf8_len, utf8_longer_than};
use vstd::prelude::*;

verus! {

pub struct CreateUserRequest {
    pub username: String,
    pub password: String,
    pub display_name: Option<String>,
    pub role: String,
}

pub struct UpdateUserRequest {
    pub display_name: Option<String>,
    pub role: Option<String>,
    pub active: Option<bool>,
    pub password: Option<String>,
}

/// What `char::is_uppercase` returns for `c`: whether it has the Unicode
/// Uppercase property.
pub uninterp spec fn char_is_uppercase(c: char) -> bool;

/// What `char::is_numeric` returns for `c`: whether its Unicode general
/// category is a number category.
pub uninterp spec fn char_is_numeric(c: char) -> bool;

/// `char::is_uppercase`. Trusted: the result is named, not computed here; of
/// it the contract states only what std's documentation shows, that the ASCII
/// capitals have the property and the ASCII small letters do not.
#[verifier::external_body]
fn is_uppercase(c: char) -> (b: bool)
    ensures
        b == char_is_uppercase(c),
        'A' <= c <= 'Z' ==> b,
        'a' <= c <= 'z' ==> !b,
{
    c.is_uppercase()
}

/// `char::is_numeric`. Trusted: the result is named, not computed here; of it
/// the contract states only that the ASCII digits are numeric and the ASCII
/// letters are not, as std's documentation shows.
#[verifier::external_body]
fn is_numeric(c: char) -> (b: bool)
    ensures
        b == char_is_numeric(c),
        '0' <= c <= '9' ==> b,
        ('a' <= c <= 'z' || 'A' <= c <= 'Z') ==> !b,
{
    c.is_numeric()
}

/// Why `p` is too weak a password, if it is: under 8 bytes, without an
/// uppercase letter, or without a number.
pub open spec fn password_error(p: Seq<char>) -> Option<Seq<char>> {
    if utf8_len(p) < 8 {
        Some("Password must be at least 8 characters"@)
    } else if !(exists|i: int| 0 <= i < p.len() && char_is_uppercase(#[trigger] p[i])) {
        Some("Password must contain an uppercase letter"@)
    } else if !(exists|i: int| 0 <= i < p.len() && char_is_numeric(#[trigger] p[i])) {
        Some("Password must contain a number"@)
    } else {
        None
    }
}

pub open spec fn create_user_error(r: CreateUserRequest) -> Option<Seq<char>> {
    first_of(
        string_error("username"@, r.username@, 100),
        first_of(
            opt_string_error("display_name"@, r.display_name, 255),
            password_error(r.password@),
        ),
    )
}

pub open spec fn update_user_error(r: UpdateUserRequest) -> Option<Seq<char>> {
    first_of(
        opt_string_error("display_name"@, r.display_name, 255),
        match r.password {
            Some(p) => password_error(p@),
            None => None,
        },
    )
}

fn any_uppercase(v: &Vec<char>) -> (b: bool)
    ensures
        b == exists|i: int| 0 <= i < v@.len() && char_is_uppercase(#[trigger] v@[i]),
{
    let mut i: usize = 0;
    while i < v.len()
        invariant
            i <= v.len(),
            forall|j: int| 0 <= j < i ==> !char_is_uppercase(#[trigger] v@[j]),
        decreases v.len() - i,
    {
        if is_uppercase(v[i]) {
            return true;
        }
        i += 1;
    }
    false
}

fn any_numeric(v: &Vec<char>) -> (b: bool)
    ensures
        b == exists|i: int| 0 <= i < v@.len() && char_is_numeric(#[trigger] v@[i]),
{
    let mut i: usize = 0;
    while i < v.len()
        invariant
            i <= v.len(),
            forall|j: int| 0 <= j < i ==> !char_is_numeric(#[trigger] v@[j]),
        decreases v.len() - i,
    {
        if is_numeric(v[i]) {
            return true;
        }
        i += 1;
    }
    false
}

/// At least 8 bytes, with an uppercase letter and a number.
pub fn validate_password(password: &str) -> (r: Result<(), ApiError>)
    ensures
        err_of(r) == opt_bad_request(password_error(password@)),
{
    if !utf8_longer_than(password, 7) {
        return Err(bad_request("Password must be at least 8 characters"));
    }
    let v = chars_of(password);
    if !any_uppercase(&v) {
        return Err(bad_request("Password must contain an uppercase letter"));
    }
    if !any_numeric(&v) {
        return Err(bad_request("Password must contain a number"));
    }
    Ok(())
}

impl CreateUserRequest {
    /// The checks a new account passes before its password is hashed.
    pub fn validate(&self) -> (r: Result<(), ApiError>)
        ensures
            err_of(r) == opt_bad_request(create_user_error(*self)),
    {
        match validate_string("username", self.username.as_str(), 100) {
            Err(e) => return Err(e),
            Ok(()) => {},
        }
        match &self.display_name {
            Some(dn) => match validate_string("display_name", dn.as_str(), 255) {
                Err(e) => return Err(e),
                Ok(()) => {},
            },
            None => {},
        }
        validate_password(self.password.as_str())
    }
}

impl UpdateUserRequest {
    /// The checks an account update passes before it is stored.
    pub fn validate(&self) -> (r: Result<(), ApiError>)
        ensures
            err_of(r) == opt_bad_request(update_user_error(*self)),
    {
        match &self.display_name {
            Some(dn) => match validate_string("display_name", dn.as_str(), 255) {
                Err(e) => return Err(e),
                Ok(()) => {},
            },
            None => {},
        }
        match &self.password {
            Some(p) => validate_password(p.as_str()),
            None => Ok(()),
        }
    }
}

} // verus!
