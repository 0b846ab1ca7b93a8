use vstd::prelude::*;
use vstd::string::StringSliceAdditionalSpecFns;

use crate::error::Error;
use crate::style::{trim, trim_spaces};

verus! {

/// The shape at the ends of an open stroke.
#[derive(Clone, Copy, PartialEq, Eq, Debug, Structural)]
pub enum LineCap {
    Butt,
    Square,
    Round,
}

/// The shape at the corners of a stroke.
#[derive(Clone, Copy, PartialEq, Eq, Debug, Structural)]
pub enum LineJoin {
    Miter,
    MiterClip,
    Round,
    Bevel,
}

/// Compares two byte strings.
fn bytes_eq(a: &[u8], b: &[u8]) -> (r: bool)
    ensures
        r == (a@ == b@),
{
    if a.len() != b.len() {
        return false;
    }
    let mut i: usize = 0;
    while i < a.len()
        invariant
            a@.len() == b@.len(),
            i <= a@.len(),
            forall|k: int| 0 <= k < i ==> a@[k] == b@[k],
        decreases a@.len() - i,
    {
        if a[i] != b[i] {
            return false;
        }
        i = i + 1;
    }
    assert(a@ =~= b@);
    true
}

impl LineCap {
    /// Parses `butt`, `round` or `square`, with spaces around it.
    ///
    /// Fails with `InvalidValue` on anything else.
    pub fn from_str(text: &str) -> (r: Result<LineCap, Error>)
        ensures
            ({
                let t = trim_spaces(text.spec_bytes());
                if t == "butt".spec_bytes() {
                    r == Ok::<LineCap, Error>(LineCap::Butt)
                } else if t == "round".spec_bytes() {
                    r == Ok::<LineCap, Error>(LineCap::Round)
                } else if t == "square".spec_bytes() {
                    r == Ok::<LineCap, Error>(LineCap::Square)
                } else {
                    r == Err::<LineCap, Error>(Error::InvalidValue)
                }
            }),
    {
        let t = trim(text.as_bytes());
        if bytes_eq(t, "butt".as_bytes()) {
            Ok(LineCap::Butt)
        } else if bytes_eq(t, "round".as_bytes()) {
            Ok(LineCap::Round)
        } else if bytes_eq(t, "square".as_bytes()) {
            Ok(LineCap::Square)
        } else {
            Err(Error::InvalidValue)
        }
    }
}

impl LineJoin {
    /// Parses `bevel`, `miter`, `miterclip` or `round`, with spaces around it.
    ///
    /// Fails with `InvalidValue` on anything else.
    pub fn from_str(text: &str) -> (r: Result<LineJoin, Error>)
        ensures
            ({
                let t = trim_spaces(text.spec_bytes());
                if t == "bevel".spec_bytes() {
                    r == Ok::<LineJoin, Error>(LineJoin::Bevel)
                } else if t == "miter".spec_bytes() {
                    r == Ok::<LineJoin, Error>(LineJoin::Miter)
                } else if t == "miterclip".spec_bytes() {
                    r == Ok::<LineJoin, Error>(LineJoin::MiterClip)
                } else if t == "round".spec_bytes() {
                    r == Ok::<LineJoin, Error>(LineJoin::Round)
                } else {
                    r == Err::<LineJoin, Error>(Error::InvalidValue)
                }
            }),
    {
        let t = trim(text.as_bytes());
        if bytes_eq(t, "bevel".as_bytes()) {
            Ok(LineJoin::Bevel)
        } else if bytes_eq(t, "miter".as_bytes()) {
            Ok(LineJoin::Miter)
        } else if bytes_eq(t, "miterclip".as_bytes()) {
            Ok(LineJoin::MiterClip)
        } else if bytes_eq(t, "round".as_bytes()) {
            Ok(LineJoin::Round)
        } else {
            Err(Error::InvalidValue)
        }
    }
}

} // verus!
