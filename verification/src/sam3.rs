//! What the SAM 3 modules share: errors, stage timings, model constants.

use crate::text::cat2;
use vstd::prelude::*;

verus! {

#[derive(Debug)]
pub enum Error {
    Bundle(String),
    Npu(String),
    Input(String),
}

impl Error {
    /// The text shown to a user.
    pub open spec fn shown(&self) -> Seq<char> {
        match self {
            Error::Bundle(m) => "bundle: "@ + m@,
            Error::Npu(m) => "NPU: "@ + m@,
            Error::Input(m) => "input: "@ + m@,
        }
    }

    pub fn message(&self) -> (r: String)
        ensures
            r@ == self.shown(),
    {
        match self {
            Error::Bundle(m) => cat2("bundle: ", m.as_str()),
            Error::Npu(m) => cat2("NPU: ", m.as_str()),
            Error::Input(m) => cat2("input: ", m.as_str()),
        }
    }
}

/// Whether `e` reports the bundle fault `m`.
pub open spec fn faults(e: Error, m: Seq<char>) -> bool {
    match e {
        Error::Bundle(s) => s@ == m,
        _ => false,
    }
}

/// Whether `e` reports the input fault `m`.
pub open spec fn rejects(e: Error, m: Seq<char>) -> bool {
    match e {
        Error::Input(s) => s@ == m,
        _ => false,
    }
}

/// Whether `r` is what a bundle's reading comes to: the value, or a bundle
/// fault with the message.
pub open spec fn reads<T: View>(r: Result<T, Error>, want: Result<T::V, Seq<char>>) -> bool {
    match (r, want) {
        (Ok(v), Ok(w)) => v@ == w,
        (Err(e), Err(m)) => faults(e, m),
        _ => false,
    }
}

} // verus!
