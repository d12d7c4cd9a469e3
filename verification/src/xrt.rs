//! What a device's users share: errors and the paths handed to a driver.

use crate::text::{cat2, chars_of, find_char};
use vstd::prelude::*;

verus! {

/// What went wrong, in the driver's words where it has any.
#[derive(Debug, Clone, PartialEq, Eq)]
pub enum Error {
    /// The device could not be opened (no device node, no driver, no
    /// permission, or missing libraries).
    Device(String),
    /// An xclbin / instruction stream could not be loaded into a context.
    Kernel(String),
    /// A buffer object could not be allocated or synced.
    Buffer(String),
    /// A launched kernel failed or did not complete.
    Run(String),
    /// A path contained an interior NUL.
    Path(String),
    /// A kernel or design failed to build.
    Compile(String),
}

/// An error's kind and message.
pub enum Fault {
    Device(Seq<char>),
    Kernel(Seq<char>),
    Buffer(Seq<char>),
    Run(Seq<char>),
    Path(Seq<char>),
    Compile(Seq<char>),
}

impl View for Error {
    type V = Fault;

    open spec fn view(&self) -> Fault {
        match self {
            Error::Device(m) => Fault::Device(m@),
            Error::Kernel(m) => Fault::Kernel(m@),
            Error::Buffer(m) => Fault::Buffer(m@),
            Error::Run(m) => Fault::Run(m@),
            Error::Path(m) => Fault::Path(m@),
            Error::Compile(m) => Fault::Compile(m@),
        }
    }
}

impl Error {
    /// The text shown to a user.
    pub open spec fn shown(&self) -> Seq<char> {
        match self {
            Error::Device(m) => "NPU device: "@ + m@,
            Error::Kernel(m) => "NPU kernel: "@ + m@,
            Error::Buffer(m) => "NPU buffer: "@ + m@,
            Error::Run(m) => "NPU run: "@ + m@,
            Error::Path(m) => "path: "@ + m@,
            Error::Compile(m) => "compile: "@ + m@,
        }
    }

    pub fn message(&self) -> (r: String)
        ensures
            r@ == self.shown(),
    {
        match self {
            Error::Device(m) => cat2("NPU device: ", m.as_str()),
            Error::Kernel(m) => cat2("NPU kernel: ", m.as_str()),
            Error::Buffer(m) => cat2("NPU buffer: ", m.as_str()),
            Error::Run(m) => cat2("NPU run: ", m.as_str()),
            Error::Path(m) => cat2("path: ", m.as_str()),
            Error::Compile(m) => cat2("compile: ", m.as_str()),
        }
    }
}

/// Whether `r` is `want`: the value, or an error of that kind and message.
pub open spec fn comes_to<T>(r: Result<T, Error>, want: Result<T, Fault>) -> bool {
    match (r, want) {
        (Ok(v), Ok(w)) => v == w,
        (Err(e), Err(f)) => e@ == f,
        _ => false,
    }
}

fn has_nul(s: &str) -> (r: bool)
    ensures
        r == s@.contains('\0'),
{
    let c = chars_of(s);
    let at: usize = find_char(c.as_slice(), 0, '\0');
    proof {
        if at == s@.len() {
            assert forall|i: int| 0 <= i < s@.len() implies s@[i] != '\0' by {}
        }
    }
    at < c.len()
}

/// What a path must meet to be handed to the driver: no NUL inside.
pub open spec fn path_fault(p: Seq<char>) -> Result<(), Fault> {
    if p.contains('\0') {
        Err(Fault::Path(p + " contains a NUL byte"@))
    } else {
        Ok(())
    }
}

pub fn check_path(p: &str) -> (r: Result<(), Error>)
    ensures
        comes_to(r, path_fault(p@)),
{
    if has_nul(p) {
        Err(Error::Path(cat2(p, " contains a NUL byte")))
    } else {
        Ok(())
    }
}

/// What a kernel's name must meet; the error is the name itself.
pub open spec fn name_fault(n: Seq<char>) -> Result<(), Fault> {
    if n.contains('\0') {
        Err(Fault::Path(n))
    } else {
        Ok(())
    }
}

pub fn check_name(n: &str) -> (r: Result<(), Error>)
    ensures
        comes_to(r, name_fault(n@)),
{
    if has_nul(n) {
        Err(Error::Path(n.to_string()))
    } else {
        Ok(())
    }
}

} // verus!
