use vstd::prelude::*;

use crate::options::WriteOptions;

verus! {

/// An RGBA color, eight bits per channel.
#[derive(Clone, Copy, PartialEq, Eq, Debug, Structural)]
pub struct Color {
    pub red: u8,
    pub green: u8,
    pub blue: u8,
    pub alpha: u8,
}

impl Color {
    /// An opaque color.
    pub fn new_rgb(red: u8, green: u8, blue: u8) -> (r: Color)
        ensures
            r == (Color { red, green, blue, alpha: 255 }),
    {
        Color { red, green, blue, alpha: 255 }
    }

    /// A color with the given opacity.
    pub fn new_rgba(red: u8, green: u8, blue: u8, alpha: u8) -> (r: Color)
        ensures
            r == (Color { red, green, blue, alpha }),
    {
        Color { red, green, blue, alpha }
    }

    /// `#000000`.
    pub fn black() -> (r: Color)
        ensures
            r == (Color { red: 0, green: 0, blue: 0, alpha: 255 }),
    {
        Color::new_rgb(0, 0, 0)
    }

    /// `#ffffff`.
    pub fn white() -> (r: Color)
        ensures
            r == (Color { red: 255, green: 255, blue: 255, alpha: 255 }),
    {
        Color::new_rgb(255, 255, 255)
    }

    /// `#808080`.
    pub fn gray() -> (r: Color)
        ensures
            r == (Color { red: 128, green: 128, blue: 128, alpha: 255 }),
    {
        Color::new_rgb(128, 128, 128)
    }

    /// `#ff0000`.
    pub fn red() -> (r: Color)
        ensures
            r == (Color { red: 255, green: 0, blue: 0, alpha: 255 }),
    {
        Color::new_rgb(255, 0, 0)
    }

    /// `#008000`.
    pub fn green() -> (r: Color)
        ensures
            r == (Color { red: 0, green: 128, blue: 0, alpha: 255 }),
    {
        Color::new_rgb(0, 128, 0)
    }

    /// `#0000ff`.
    pub fn blue() -> (r: Color)
        ensures
            r == (Color { red: 0, green: 0, blue: 255, alpha: 255 }),
    {
        Color::new_rgb(0, 0, 255)
    }
}

/// The lower-case hexadecimal digit of `n`, which is below 16.
pub open spec fn hex_digit(n: u8) -> u8 {
    if n < 10 {
        (48 + n) as u8
    } else {
        (87 + n) as u8
    }
}

/// The two hexadecimal digits of a byte.
pub fn int2hex(n: u8) -> (r: (u8, u8))
    ensures
        r == (hex_digit(n / 16), hex_digit(n % 16)),
{
    let hi = n / 16;
    let lo = n % 16;
    let a = if hi < 10 {
        48 + hi
    } else {
        87 + hi
    };
    let b = if lo < 10 {
        48 + lo
    } else {
        87 + lo
    };
    (a, b)
}

impl Color {
    /// The text of the color: `#rrggbb`, or `#rgb` where the options ask for it and each
    /// channel has two equal digits. The alpha channel is not written.
    pub open spec fn spec_text(&self, opt: WriteOptions) -> Seq<u8> {
        let (r1, r2) = (hex_digit(self.red / 16), hex_digit(self.red % 16));
        let (g1, g2) = (hex_digit(self.green / 16), hex_digit(self.green % 16));
        let (b1, b2) = (hex_digit(self.blue / 16), hex_digit(self.blue % 16));
        if opt.trim_hex_colors && r1 == r2 && g1 == g2 && b1 == b2 {
            seq![35u8, r1, g1, b1]
        } else {
            seq![35u8, r1, r2, g1, g2, b1, b2]
        }
    }

    /// Writes the color to `out`.
    pub fn write_buf_opt(&self, opt: &WriteOptions, out: &mut Vec<u8>)
        ensures
            final(out)@ == old(out)@ + self.spec_text(*opt),
    {
        out.push('#' as u8);
        let (r1, r2) = int2hex(self.red);
        let (g1, g2) = int2hex(self.green);
        let (b1, b2) = int2hex(self.blue);
        if opt.trim_hex_colors && r1 == r2 && g1 == g2 && b1 == b2 {
            out.push(r1);
            out.push(g1);
            out.push(b1);
        } else {
            out.push(r1);
            out.push(r2);
            out.push(g1);
            out.push(g2);
            out.push(b1);
            out.push(b2);
        }
        assert(out@ =~= old(out)@ + self.spec_text(*opt));
    }

    /// The text of the color.
    pub fn to_text(&self, opt: &WriteOptions) -> (r: Vec<u8>)
        ensures
            r@ == self.spec_text(*opt),
    {
        let mut out: Vec<u8> = Vec::new();
        self.write_buf_opt(opt, &mut out);
        assert(out@ =~= self.spec_text(*opt));
        out
    }
}

} // verus!
