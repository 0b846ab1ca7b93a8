use vstd::prelude::*;
use vstd::string::StringSliceAdditionalSpecFns;

use crate::error::push_bytes;

verus! {

/// How a view box is aligned within its viewport.
#[derive(Clone, Copy, PartialEq, Eq, Debug, Structural)]
pub enum Align {
    /// `none`: no forced uniform scaling.
    NoAlign,
    XMinYMin,
    XMidYMin,
    XMaxYMin,
    XMinYMid,
    XMidYMid,
    XMaxYMid,
    XMinYMax,
    XMidYMax,
    XMaxYMax,
}

/// A `preserveAspectRatio` value.
#[derive(Clone, Copy, PartialEq, Eq, Debug, Structural)]
pub struct AspectRatio {
    pub defer: bool,
    pub align: Align,
    pub slice: bool,
}

/// The keyword of an alignment.
pub open spec fn align_text(a: Align) -> Seq<u8> {
    match a {
        Align::NoAlign => "none".spec_bytes(),
        Align::XMinYMin => "xMinYMin".spec_bytes(),
        Align::XMidYMin => "xMidYMin".spec_bytes(),
        Align::XMaxYMin => "xMaxYMin".spec_bytes(),
        Align::XMinYMid => "xMinYMid".spec_bytes(),
        Align::XMidYMid => "xMidYMid".spec_bytes(),
        Align::XMaxYMid => "xMaxYMid".spec_bytes(),
        Align::XMinYMax => "xMinYMax".spec_bytes(),
        Align::XMidYMax => "xMidYMax".spec_bytes(),
        Align::XMaxYMax => "xMaxYMax".spec_bytes(),
    }
}

impl AspectRatio {
    /// The text of the value: `defer ` if set, the alignment, then ` slice` if set.
    pub open spec fn spec_text(&self) -> Seq<u8> {
        (if self.defer {
            "defer ".spec_bytes()
        } else {
            Seq::<u8>::empty()
        }) + align_text(self.align) + (if self.slice {
            " slice".spec_bytes()
        } else {
            Seq::<u8>::empty()
        })
    }

    /// Writes the value to `out`.
    pub fn write_buf(&self, out: &mut Vec<u8>)
        ensures
            final(out)@ == old(out)@ + self.spec_text(),
    {
        if self.defer {
            push_bytes(out, "defer ".as_bytes());
        }
        let ghost mid = out@;
        let align = match self.align {
            Align::NoAlign => "none",
            Align::XMinYMin => "xMinYMin",
            Align::XMidYMin => "xMidYMin",
            Align::XMaxYMin => "xMaxYMin",
            Align::XMinYMid => "xMinYMid",
            Align::XMidYMid => "xMidYMid",
            Align::XMaxYMid => "xMaxYMid",
            Align::XMinYMax => "xMinYMax",
            Align::XMidYMax => "xMidYMax",
            Align::XMaxYMax => "xMaxYMax",
        };
        push_bytes(out, align.as_bytes());
        let ghost after_align = out@;
        if self.slice {
            push_bytes(out, " slice".as_bytes());
        }
        proof {
            assert(after_align == mid + align_text(self.align));
            if self.defer {
                assert(mid == old(out)@ + "defer ".spec_bytes());
            } else {
                assert(mid =~= old(out)@ + Seq::<u8>::empty());
            }
            if self.slice {
                assert(out@ == after_align + " slice".spec_bytes());
            } else {
                assert(out@ =~= after_align + Seq::<u8>::empty());
            }
            assert(out@ =~= old(out)@ + self.spec_text());
        }
    }

    /// The text of the value.
    pub fn to_text(&self) -> (r: Vec<u8>)
        ensures
            r@ == self.spec_text(),
    {
        let mut out: Vec<u8> = Vec::new();
        self.write_buf(&mut out);
        assert(out@ =~= self.spec_text());
        out
    }
}

impl Default for AspectRatio {
    fn default() -> (r: AspectRatio)
        ensures
            r == (AspectRatio { defer: false, align: Align::XMidYMid, slice: false }),
    {
        AspectRatio { defer: false, align: Align::XMidYMid, slice: false }
    }
}

} // verus!
