//! The one boundary error type of the library.
use vstd::prelude::*;

use crate::text::{decimal, push_decimal};

verus! {

/// Every error the library reports folds into this enum.
#[derive(Debug)]
pub enum DropletError {
    /// A handle that the registry never issued, or that was removed.
    BadHandle(u64),
    /// A dataset the connector could not find.
    NotFound(String),
    /// A column type the plain read-out does not decode.
    UnsupportedType(String),
    /// A tool argument of the wrong shape, or SQL the guard refuses.
    BadArg(String),
}

/// The text an error is shown as.
pub open spec fn message_spec(e: DropletError) -> Seq<char> {
    match e {
        DropletError::BadHandle(h) => "no such handle: "@ + decimal(h as nat),
        DropletError::NotFound(s) => "not found: "@ + s@,
        DropletError::UnsupportedType(s) => "unsupported column type: "@ + s@,
        DropletError::BadArg(s) => "bad tool argument: "@ + s@,
    }
}

impl DropletError {
    /// The text the error is shown as.
    pub fn message(&self) -> (r: String)
        ensures
            r@ == message_spec(*self),
    {
        match self {
            DropletError::BadHandle(h) => {
                let mut s = String::from_str("no such handle: ");
                push_decimal(&mut s, *h);
                s
            },
            DropletError::NotFound(d) => {
                let mut s = String::from_str("not found: ");
                s.append(d.as_str());
                s
            },
            DropletError::UnsupportedType(t) => {
                let mut s = String::from_str("unsupported column type: ");
                s.append(t.as_str());
                s
            },
            DropletError::BadArg(m) => {
                let mut s = String::from_str("bad tool argument: ");
                s.append(m.as_str());
                s
            },
        }
    }
}

} // verus!
