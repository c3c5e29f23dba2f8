//! Hashes, signatures and random keys: hex text, SHA-256 digests, the HMAC
//! check of GitHub webhook deliveries, and generated secrets.
use crate::text::{chars_of, push_char, push_str, starts_with, starts_with_chars, string_of};
use hmac::Mac;
use rand::RngCore;
use sha2::Digest;
use vstd::prelude::*;
use vstd::utf8::encode_utf8;

verus! {

// ── Hex text ────────────────────────────────────────────────────────────────
pub open spec fn hex_digit(n: int) -> char {
    if n < 10 {
        (n + 48) as char
    } else {
        (n - 10 + 97) as char
    }
}

/// Lowercase hex text of `bytes`, two digits per byte, high nibble first.
pub open spec fn hex_lower(bytes: Seq<u8>) -> Seq<char> {
    Seq::new(
        2 * bytes.len(),
        |i: int|
            if i % 2 == 0 {
                hex_digit(bytes[i / 2] as int / 16)
            } else {
                hex_digit(bytes[i / 2] as int % 16)
            },
    )
}

pub open spec fn is_hex_char(c: char) -> bool {
    ('0' <= c <= '9') || ('a' <= c <= 'f') || ('A' <= c <= 'F')
}

pub open spec fn hex_value(c: char) -> int {
    if '0' <= c <= '9' {
        c as int - 48
    } else if 'a' <= c <= 'f' {
        c as int - 97 + 10
    } else {
        c as int - 65 + 10
    }
}

/// The bytes that hex text `s` stands for: an even number of hex digits of
/// either case, two per byte.
pub open spec fn hex_decoded(s: Seq<char>) -> Option<Seq<u8>> {
    if s.len() % 2 == 0 && forall|i: int| 0 <= i < s.len() ==> is_hex_char(#[trigger] s[i]) {
        Some(
            Seq::new(
                s.len() / 2,
                |i: int| (hex_value(s[2 * i]) * 16 + hex_value(s[2 * i + 1])) as u8,
            ),
        )
    } else {
        None
    }
}

/// `hex::decode`. Trusted: as the crate's source shows, it accepts exactly an
/// even number of hex digits (either case) and gives a byte per pair.
#[verifier::external_body]
fn hex_decode(s: &str) -> (r: Option<Vec<u8>>)
    ensures
        match hex_decoded(s@) {
            Some(b) => r matches Some(v) && v@ == b,
            None => r is None,
        },
{
    hex::decode(s).ok()
}

/// `hex::encode`. Trusted: as the crate's source shows, two lowercase hex
/// digits per byte, high nibble first.
#[verifier::external_body]
fn hex_encode(bytes: &[u8]) -> (r: String)
    ensures
        r@ == hex_lower(bytes@),
{
    hex::encode(bytes)
}

// ── Digests and MACs ────────────────────────────────────────────────────────
/// The SHA-256 digest of `data`.
pub uninterp spec fn sha256(data: Seq<u8>) -> Seq<u8>;

/// The HMAC-SHA256 tag of `msg` under `key`.
pub uninterp spec fn hmac_sha256(key: Seq<u8>, msg: Seq<u8>) -> Seq<u8>;

/// `sha2::Sha256::digest`. Trusted: the digest is named, not computed here;
/// it is 32 bytes long.
#[verifier::external_body]
fn sha256_digest(data: &[u8]) -> (r: Vec<u8>)
    ensures
        r@ == sha256(data@),
        r@.len() == 32,
{
    sha2::Sha256::digest(data).to_vec()
}

/// `hmac::Hmac<Sha256>` keyed with `key` over `msg`, then `verify_slice(tag)`.
/// Trusted: HMAC takes keys of any length, and `verify_slice` accepts exactly
/// the full tag; the tag itself is named, not computed here.
#[verifier::external_body]
fn hmac_sha256_verify(key: &[u8], msg: &[u8], tag: &[u8]) -> (ok: bool)
    ensures
        ok == (tag@ == hmac_sha256(key@, msg@)),
{
    match hmac::Hmac::<sha2::Sha256>::new_from_slice(key) {
        Ok(mut mac) => {
            mac.update(msg);
            mac.verify_slice(tag).is_ok()
        },
        Err(_) => false,
    }
}

/// `n` bytes from `rand::rngs::OsRng::try_fill_bytes`, the operating
/// system's random source. Trusted: when the source answers, `n` bytes come
/// back; `None` when it fails. The bytes themselves are random and not stated.
#[verifier::external_body]
fn random_bytes(n: usize) -> (r: Option<Vec<u8>>)
    ensures
        r matches Some(v) ==> v@.len() == n,
{
    let mut v = vec![0u8; n];
    match rand::rngs::OsRng.try_fill_bytes(&mut v) {
        Ok(()) => Some(v),
        Err(_) => None,
    }
}

// ── Verified ────────────────────────────────────────────────────────────────
/// Lowercase hex of the SHA-256 digest of the UTF-8 bytes of `data`.
pub fn sha256_hex(data: &str) -> (r: String)
    ensures
        r@ == hex_lower(sha256(encode_utf8(data@))),
        r@.len() == 64,
{
    let d = sha256_digest(data.as_bytes());
    hex_encode(d.as_slice())
}

/// Appends two lowercase hex digits per byte (`format!("{:02x}", b)` each).
fn push_hex(out: &mut String, bytes: &[u8])
    ensures
        final(out)@ == old(out)@ + hex_lower(bytes@),
{
    let mut i: usize = 0;
    while i < bytes.len()
        invariant
            i <= bytes.len(),
            out@ == old(out)@ + hex_lower(bytes@.subrange(0, i as int)),
        decreases bytes.len() - i,
    {
        let ghost before = out@;
        let b = bytes[i];
        let hi = b / 16;
        let lo = b % 16;
        let ch = if hi < 10 {
            (hi + 48) as char
        } else {
            (hi - 10 + 97) as char
        };
        let cl = if lo < 10 {
            (lo + 48) as char
        } else {
            (lo - 10 + 97) as char
        };
        push_char(out, ch);
        push_char(out, cl);
        proof {
            let pre = bytes@.subrange(0, i as int);
            let post = bytes@.subrange(0, i + 1);
            assert(hex_lower(post) =~= hex_lower(pre).push(hex_digit(b as int / 16)).push(hex_digit(b as int % 16)))
                by {
                assert forall|k: int| 0 <= k < 2 * post.len() implies hex_lower(post)[k] == hex_lower(
                    pre,
                ).push(hex_digit(b as int / 16)).push(hex_digit(b as int % 16))[k] by {
                    if k < 2 * pre.len() {
                        assert(post[k / 2] == pre[k / 2]);
                    } else {
                        assert(post[k / 2] == b);
                    }
                }
            }
            assert(ch == hex_digit(b as int / 16));
            assert(cl == hex_digit(b as int % 16));
            assert(out@ =~= old(out)@ + hex_lower(post));
        }
        i += 1;
    }
    assert(bytes@.subrange(0, bytes.len() as int) =~= bytes@);
}

/// The API key made of `bytes`: `chola_` and their lowercase hex.
pub fn api_key_from_bytes(bytes: &[u8]) -> (k: String)
    ensures
        k@ == "chola_"@ + hex_lower(bytes@),
{
    let mut k = String::new();
    push_str(&mut k, "chola_");
    let h = hex_encode(bytes);
    push_str(&mut k, h.as_str());
    k
}

/// The registration token made of `bytes`: `chola_reg_` and their hex.
pub fn registration_token_from_bytes(bytes: &[u8]) -> (k: String)
    ensures
        k@ == "chola_reg_"@ + hex_lower(bytes@),
{
    let mut k = String::new();
    push_str(&mut k, "chola_reg_");
    push_hex(&mut k, bytes);
    k
}

/// The worker token made of `bytes`, `chola_wkr_` and their hex, with the
/// lowercase hex SHA-256 of its text, which is what the store keeps.
pub fn worker_token_from_bytes(bytes: &[u8]) -> (r: (String, String))
    ensures
        r.0@ == "chola_wkr_"@ + hex_lower(bytes@),
        r.1@ == hex_lower(sha256(encode_utf8(r.0@))),
{
    let mut k = String::new();
    push_str(&mut k, "chola_wkr_");
    push_hex(&mut k, bytes);
    let h = sha256_hex(k.as_str());
    (k, h)
}

/// A new API key: `chola_` and the hex of 20 random bytes (see
/// [`api_key_from_bytes`]); `None` when the system's random source fails.
pub fn generate_key() -> (k: Option<String>)
    ensures
        k matches Some(k) ==> exists|b: Seq<u8>| b.len() == 20 && k@ == "chola_"@ + hex_lower(b),
{
    match random_bytes(20) {
        Some(bytes) => Some(api_key_from_bytes(bytes.as_slice())),
        None => None,
    }
}

/// A new worker registration token: `chola_reg_` and the hex of 32 random
/// bytes (see [`registration_token_from_bytes`]); `None` when the system's
/// random source fails.
pub fn generate_registration_token() -> (k: Option<String>)
    ensures
        k matches Some(k) ==> exists|b: Seq<u8>| b.len() == 32 && k@ == "chola_reg_"@ + hex_lower(b),
{
    match random_bytes(32) {
        Some(bytes) => Some(registration_token_from_bytes(bytes.as_slice())),
        None => None,
    }
}

/// A new worker token from 32 random bytes, with its hash (see
/// [`worker_token_from_bytes`]); `None` when the system's random source fails.
pub fn generate_worker_token() -> (r: Option<(String, String)>)
    ensures
        r matches Some(p) ==> (exists|b: Seq<u8>| b.len() == 32 && p.0@ == "chola_wkr_"@ + hex_lower(b))
            && p.1@ == hex_lower(sha256(encode_utf8(p.0@))),
{
    match random_bytes(32) {
        Some(bytes) => Some(worker_token_from_bytes(bytes.as_slice())),
        None => None,
    }
}

/// The hex part of a signature header: what follows `sha256=`, else all of it.
pub open spec fn signature_hex(signature: Seq<char>) -> Seq<char> {
    if starts_with(signature, "sha256="@) {
        signature.skip(7)
    } else {
        signature
    }
}

/// Whether `signature` (`sha256=<hex>`, or bare hex) is the HMAC-SHA256 of
/// `body` under the webhook's `secret`.
pub open spec fn github_signature_valid(secret: Seq<char>, body: Seq<u8>, signature: Seq<char>) -> bool {
    match hex_decoded(signature_hex(signature)) {
        Some(tag) => tag == hmac_sha256(encode_utf8(secret), body),
        None => false,
    }
}

/// Hex text reads back as the bytes it was made from.
pub proof fn law_hex_roundtrip(bytes: Seq<u8>)
    ensures
        hex_decoded(hex_lower(bytes)) == Some(bytes),
{
    let s = hex_lower(bytes);
    assert forall|i: int| 0 <= i < s.len() implies is_hex_char(#[trigger] s[i]) && hex_value(s[i]) == if i % 2 == 0 {
        bytes[i / 2] as int / 16
    } else {
        bytes[i / 2] as int % 16
    } by {
        let n = if i % 2 == 0 {
            bytes[i / 2] as int / 16
        } else {
            bytes[i / 2] as int % 16
        };
        assert(0 <= n < 16);
    }
    let d = Seq::new(s.len() / 2, |i: int| (hex_value(s[2 * i]) * 16 + hex_value(s[2 * i + 1])) as u8);
    assert forall|i: int| 0 <= i < bytes.len() implies d[i] == bytes[i] by {
        assert((2 * i) % 2 == 0 && (2 * i) / 2 == i);
        assert((2 * i + 1) % 2 == 1 && (2 * i + 1) / 2 == i);
        assert(hex_value(s[2 * i]) == bytes[i] as int / 16);
        assert(hex_value(s[2 * i + 1]) == bytes[i] as int % 16);
    }
    assert(d =~= bytes);
}

/// A delivery whose signature is the `sha256=` hex HMAC of its body under
/// the webhook's secret is accepted.
pub proof fn law_signed_delivery_accepted(secret: Seq<char>, body: Seq<u8>)
    ensures
        github_signature_valid(
            secret,
            body,
            "sha256="@ + hex_lower(hmac_sha256(encode_utf8(secret), body)),
        ),
{
    let tag = hmac_sha256(encode_utf8(secret), body);
    let sig = "sha256="@ + hex_lower(tag);
    reveal_strlit("sha256=");
    assert(sig.take(7) =~= "sha256="@);
    assert(sig.skip(7) =~= hex_lower(tag));
    law_hex_roundtrip(tag);
}

pub fn verify_github_signature(secret: &str, body: &[u8], signature: &str) -> (ok: bool)
    ensures
        ok == github_signature_valid(secret@, body@, signature@),
{
    let s = chars_of(signature);
    let prefix = chars_of("sha256=");
    let hex_part = if starts_with_chars(&s, &prefix) {
        proof {
            reveal_strlit("sha256=");
        }
        string_of(&s, 7, s.len())
    } else {
        string_of(&s, 0, s.len())
    };
    assert(hex_part@ =~= signature_hex(signature@)) by {
        reveal_strlit("sha256=");
    }
    let tag = match hex_decode(hex_part.as_str()) {
        Some(t) => t,
        None => return false,
    };
    hmac_sha256_verify(secret.as_bytes(), body, tag.as_slice())
}

} // verus!
