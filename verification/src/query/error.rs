//! ChQL error type. Carries a byte-offset position for editor underlining.
use vstd::prelude::*;

use crate::text::{push_str, push_u64, dec};

verus! {

#[derive(Debug, Clone, PartialEq)]
pub struct ChqlError {
    pub message: String,
    pub position: Option<usize>,
    pub hint: Option<String>,
}

/// The view of a `ChqlError`.
pub struct ChqlErrorV {
    pub message: Seq<char>,
    pub position: Option<usize>,
    pub hint: Option<Seq<char>>,
}

impl View for ChqlError {
    type V = ChqlErrorV;

    open spec fn view(&self) -> ChqlErrorV {
        ChqlErrorV {
            message: self.message@,
            position: self.position,
            hint: match self.hint {
                Some(h) => Some(h@),
                None => None,
            },
        }
    }
}

/// An error with a message and a position.
pub open spec fn err_at(message: Seq<char>, position: int) -> ChqlErrorV {
    ChqlErrorV { message, position: Some(position as usize), hint: None }
}

/// An error with a message and no position.
pub open spec fn err_plain(message: Seq<char>) -> ChqlErrorV {
    ChqlErrorV { message, position: None, hint: None }
}

/// The text of `ChqlError`'s `Display`.
pub open spec fn error_text(e: ChqlErrorV) -> Seq<char> {
    let head = match e.position {
        Some(p) => "ChQL error at position "@ + dec(p as int) + ": "@ + e.message,
        None => "ChQL error: "@ + e.message,
    };
    match e.hint {
        Some(h) => head + " (hint: "@ + h + ")"@,
        None => head,
    }
}

impl ChqlError {
    pub fn new(message: String) -> (e: Self)
        ensures
            e@ == err_plain(message@),
    {
        ChqlError { message, position: None, hint: None }
    }

    pub fn at(message: String, position: usize) -> (e: Self)
        ensures
            e@ == err_at(message@, position as int),
    {
        ChqlError { message, position: Some(position), hint: None }
    }

    pub fn with_hint(self, hint: String) -> (e: Self)
        ensures
            e@ == (ChqlErrorV { hint: Some(hint@), ..self@ }),
    {
        ChqlError { hint: Some(hint), ..self }
    }

    /// The display text: `ChQL error at position N: msg (hint: h)`.
    pub fn to_text(&self) -> (s: String)
        ensures
            s@ == error_text(self@),
    {
        let mut s = String::new();
        match self.position {
            Some(p) => {
                push_str(&mut s, "ChQL error at position ");
                push_u64(&mut s, p as u64);
                push_str(&mut s, ": ");
            },
            None => {
                push_str(&mut s, "ChQL error: ");
            },
        }
        push_str(&mut s, self.message.as_str());
        match &self.hint {
            Some(h) => {
                push_str(&mut s, " (hint: ");
                push_str(&mut s, h.as_str());
                push_str(&mut s, ")");
            },
            None => {},
        }
        proof {
            match self.position {
                Some(p) => {
                    assert(dec(p as int) == crate::text::dec_digits(p as nat));
                },
                None => {},
            }
        }
        s
    }
}

} // verus!
