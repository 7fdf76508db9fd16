//! Pixel encodings: fixed-point colours quantized to byte channels.

use crate::colour::Colour;
use crate::fixed::tdiv;
use vstd::prelude::*;

verus! {

/// A linear colour channel quantized to a byte: 256 steps to one unit of
/// brightness, saturating at the ends of the byte range.
pub open spec fn spec_channel_byte(v: int) -> u8 {
    let t = tdiv(v, 256);
    if t < 0 {
        0u8
    } else if t > 255 {
        255u8
    } else {
        t as u8
    }
}

/// An eight-bit red, green, blue pixel.
#[derive(Debug, Clone, Copy)]
pub struct RGB(pub [u8; 3]);

fn channel_byte(v: i64) -> (b: u8)
    ensures
        b == spec_channel_byte(v as int),
{
    let t: i64 = v / 256;
    if t < 0 {
        0
    } else if t > 255 {
        255
    } else {
        t as u8
    }
}

impl From<Colour> for RGB {
    /// Quantizes each channel of the colour.
    fn from(value: Colour) -> (r: RGB) {
        let red: u8 = channel_byte(value.0.0);
        let green: u8 = channel_byte(value.0.1);
        let blue: u8 = channel_byte(value.0.2);
        RGB([red, green, blue])
    }
}

impl vstd::std_specs::convert::FromSpecImpl<Colour> for RGB {
    open spec fn obeys_from_spec() -> bool {
        true
    }

    open spec fn from_spec(t: Colour) -> RGB {
        RGB(
            [
                spec_channel_byte(t.0.0 as int),
                spec_channel_byte(t.0.1 as int),
                spec_channel_byte(t.0.2 as int),
            ],
        )
    }
}

impl RGB {
    /// The three channel bytes in red, green, blue order.
    pub fn bytes(&self) -> (r: (u8, u8, u8))
        ensures
            r.0 == self.0[0] && r.1 == self.0[1] && r.2 == self.0[2],
    {
        (self.0[0], self.0[1], self.0[2])
    }
}

} // verus!
