use vstd::prelude::*;
use vstd::string::StringSliceAdditionalSpecFns;

use crate::error::{copy_bytes, is_invalid_string, Error};
use crate::stream::{char_pos, keyword_at, spaces_end, Stream};

verus! {

/// A position keyword: `top`, `center`, `bottom`, `right` or `left`.
#[derive(Clone, Copy, PartialEq, Eq, Debug, Structural)]
pub enum RelativePosition {
    Top,
    Center,
    Bottom,
    Right,
    Left,
}

/// The keyword that `parse_relative_position` reads at `p`, tried in the order
/// `left`, `right`, `top`, `bottom`, `center`.
pub open spec fn position_keyword_at(d: Seq<u8>, p: int) -> Option<(RelativePosition, Seq<u8>)> {
    if keyword_at(d, p, "left".spec_bytes()) {
        Some((RelativePosition::Left, "left".spec_bytes()))
    } else if keyword_at(d, p, "right".spec_bytes()) {
        Some((RelativePosition::Right, "right".spec_bytes()))
    } else if keyword_at(d, p, "top".spec_bytes()) {
        Some((RelativePosition::Top, "top".spec_bytes()))
    } else if keyword_at(d, p, "bottom".spec_bytes()) {
        Some((RelativePosition::Bottom, "bottom".spec_bytes()))
    } else if keyword_at(d, p, "center".spec_bytes()) {
        Some((RelativePosition::Center, "center".spec_bytes()))
    } else {
        None
    }
}

impl<'a> Stream<'a> {
    /// Parses a position keyword after spaces.
    ///
    /// Fails with `InvalidString` (the rest of the text, then the five keywords) when none
    /// stands there.
    pub fn parse_relative_position(&mut self) -> (r: Result<RelativePosition, Error>)
        ensures
            final(self).data() == old(self).data(),
            final(self).wf(),
            ({
                let d = old(self).data();
                let p = spaces_end(d, old(self).cursor());
                match position_keyword_at(d, p) {
                    Some((v, kw)) => r == Ok::<RelativePosition, Error>(v) && final(self).cursor()
                        == p + kw.len(),
                    None => r is Err && is_invalid_string(
                        r->Err_0,
                        seq![
                            d.subrange(p, d.len() as int),
                            "left".spec_bytes(),
                            "right".spec_bytes(),
                            "top".spec_bytes(),
                            "bottom".spec_bytes(),
                            "center".spec_bytes(),
                        ],
                        char_pos(d, p),
                    ),
                }
            }),
    {
        self.skip_spaces();
        let left = "left".as_bytes();
        let right = "right".as_bytes();
        let top = "top".as_bytes();
        let bottom = "bottom".as_bytes();
        let center = "center".as_bytes();
        if self.starts_with(left) {
            self.advance(left.len());
            Ok(RelativePosition::Left)
        } else if self.starts_with(right) {
            self.advance(right.len());
            Ok(RelativePosition::Right)
        } else if self.starts_with(top) {
            self.advance(top.len());
            Ok(RelativePosition::Top)
        } else if self.starts_with(bottom) {
            self.advance(bottom.len());
            Ok(RelativePosition::Bottom)
        } else if self.starts_with(center) {
            self.advance(center.len());
            Ok(RelativePosition::Center)
        } else {
            let mut v: Vec<Vec<u8>> = Vec::new();
            v.push(copy_bytes(self.slice_tail()));
            v.push(copy_bytes(left));
            v.push(copy_bytes(right));
            v.push(copy_bytes(top));
            v.push(copy_bytes(bottom));
            v.push(copy_bytes(center));
            proof {
                assert(v@.map_values(|t: Vec<u8>| t@) =~= seq![
                    self.data().subrange(self.cursor(), self.data().len() as int),
                    "left".spec_bytes(),
                    "right".spec_bytes(),
                    "top".spec_bytes(),
                    "bottom".spec_bytes(),
                    "center".spec_bytes(),
                ]);
            }
            Err(Error::InvalidString(v, self.calc_char_pos()))
        }
    }
}

impl RelativePosition {
    /// Parses a whole text as one position keyword, with optional spaces before it.
    ///
    /// Fails with `UnexpectedData` where text follows the keyword.
    pub fn from_str(text: &str) -> (r: Result<RelativePosition, Error>)
        ensures
            ({
                let d = text.spec_bytes();
                let p = spaces_end(d, 0);
                match position_keyword_at(d, p) {
                    Some((v, kw)) => if p + kw.len() >= d.len() {
                        r == Ok::<RelativePosition, Error>(v)
                    } else {
                        r == Err::<RelativePosition, Error>(
                            Error::UnexpectedData(char_pos(d, p + kw.len()) as usize),
                        )
                    },
                    None => r is Err && is_invalid_string(
                        r->Err_0,
                        seq![
                            d.subrange(p, d.len() as int),
                            "left".spec_bytes(),
                            "right".spec_bytes(),
                            "top".spec_bytes(),
                            "bottom".spec_bytes(),
                            "center".spec_bytes(),
                        ],
                        char_pos(d, p),
                    ),
                }
            }),
    {
        let mut s = Stream::from(text);
        let v = s.parse_relative_position()?;
        if !s.at_end() {
            return Err(Error::UnexpectedData(s.calc_char_pos()));
        }
        Ok(v)
    }
}

} // verus!
