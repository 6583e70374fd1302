//! Address translation and colors for the physical LED panel: a map from
//! matrix positions to LED-strip indices, and the rainbow color wheel the
//! animations cycle through.

use vstd::prelude::*;
use crate::Error;

verus! {

/// The number of LEDs on the strip.
pub const NUM_LEDS: usize = 291;

/// The width of the logical matrix.
pub const MATRIX_WIDTH: usize = 19;

/// The height of the logical matrix.
pub const MATRIX_HEIGHT: usize = 21;

/// The LED-strip index of each matrix position, row by row; `291` marks a
/// position with no LED behind it.
pub const MATRIX_MAP: [i16; 399] = [
    291, 291, 291, 291, 291, 291, 291, 291, 0, 1, 2, 3, 4, 5, 6, 7, 291, 291, 291,
    291, 291, 291, 291, 291, 291, 291, 16, 15, 14, 13, 12, 11, 10, 9, 8, 291, 291, 291,
    291, 291, 291, 291, 291, 291, 291, 17, 18, 19, 20, 21, 22, 23, 24, 25, 26, 291, 291,
    291, 291, 291, 291, 291, 291, 37, 36, 35, 34, 33, 32, 31, 30, 29, 28, 27, 291, 291,
    291, 291, 291, 38, 39, 40, 41, 42, 43, 44, 45, 46, 47, 48, 49, 50, 51, 52, 291,
    291, 291, 68, 67, 66, 65, 64, 63, 62, 61, 60, 59, 58, 57, 56, 55, 54, 53, 291,
    291, 291, 69, 70, 71, 72, 73, 74, 75, 76, 77, 78, 79, 80, 81, 82, 83, 84, 85,
    291, 102, 101, 100, 99, 98, 97, 96, 95, 94, 93, 92, 91, 90, 89, 88, 87, 86, 291,
    291, 103, 104, 105, 106, 107, 108, 109, 110, 111, 112, 113, 114, 115, 116, 117, 118, 119, 291,
    136, 135, 134, 133, 132, 131, 130, 129, 128, 127, 126, 125, 124, 123, 122, 121, 120, 291, 291,
    137, 138, 139, 140, 141, 142, 143, 144, 145, 146, 147, 148, 149, 150, 151, 152, 153, 291, 291,
    170, 169, 168, 167, 166, 165, 164, 163, 162, 161, 160, 159, 158, 157, 156, 155, 154, 291, 291,
    291, 171, 172, 173, 174, 175, 176, 177, 178, 179, 180, 181, 182, 183, 184, 185, 186, 187, 291,
    291, 204, 203, 202, 201, 200, 199, 198, 197, 196, 195, 194, 193, 192, 191, 190, 189, 188, 291,
    291, 291, 205, 206, 207, 208, 209, 210, 211, 212, 213, 214, 215, 216, 217, 218, 219, 220, 221,
    291, 291, 237, 236, 235, 234, 233, 232, 231, 230, 229, 228, 227, 226, 225, 224, 223, 222, 291,
    291, 291, 291, 238, 239, 240, 241, 242, 243, 244, 245, 246, 247, 248, 249, 250, 251, 252, 291,
    291, 291, 291, 291, 291, 291, 263, 262, 261, 260, 259, 258, 257, 256, 255, 254, 253, 291, 291,
    291, 291, 291, 291, 291, 291, 291, 264, 265, 266, 267, 268, 269, 270, 271, 272, 273, 291, 291,
    291, 291, 291, 291, 291, 291, 291, 282, 281, 280, 279, 278, 277, 276, 275, 274, 291, 291, 291,
    291, 291, 291, 291, 291, 291, 291, 291, 283, 284, 285, 286, 287, 288, 289, 290, 291, 291, 291,
];

/// An RGB color with 8-bit channels.
#[derive(Clone, Copy, Debug, PartialEq, Eq, Structural)]
pub struct Rgb {
    pub r: u8,
    pub g: u8,
    pub b: u8,
}

impl Default for Rgb {
    /// Black: all channels off.
    fn default() -> (c: Rgb)
        ensures
            c == (Rgb { r: 0, g: 0, b: 0 }),
    {
        Rgb { r: 0, g: 0, b: 0 }
    }
}

impl Rgb {
    pub fn new(r: u8, g: u8, b: u8) -> (c: Rgb)
        ensures
            c == (Rgb { r, g, b }),
    {
        Rgb { r, g, b }
    }
}

/// Whether the matrix position `(x, y)` maps to a physical LED.
pub open spec fn mapped(x: int, y: int) -> bool {
    &&& 0 <= x < MATRIX_WIDTH
    &&& 0 <= y < MATRIX_HEIGHT
    &&& 0 <= MATRIX_MAP[x + y * MATRIX_WIDTH] < NUM_LEDS
}

/// Set the color of the LED behind matrix position `(x, y)` in the frame
/// buffer, returning its strip index; positions off the panel or without an
/// LED are rejected and leave the buffer unchanged.
pub fn set_matrix(x: usize, y: usize, color: Rgb, data: &mut Vec<Rgb>) -> (r: Result<i16, Error>)
    requires
        old(data)@.len() == NUM_LEDS,
    ensures
        final(data)@.len() == NUM_LEDS,
        match r {
            Ok(led) => mapped(x as int, y as int) && led == MATRIX_MAP[x + y * MATRIX_WIDTH]
                && final(data)@ == old(data)@.update(led as int, color),
            Err(Error::OutOfBounds) => !mapped(x as int, y as int) && final(data)@ == old(data)@,
            Err(_) => false,
        },
{
    if x >= MATRIX_WIDTH || y >= MATRIX_HEIGHT {
        return Err(Error::OutOfBounds);
    }
    let addr = x + y * MATRIX_WIDTH;
    let led = MATRIX_MAP[addr];
    if led < 0 || led as usize >= NUM_LEDS {
        return Err(Error::OutOfBounds);
    }
    data.set(led as usize, color);
    Ok(led)
}

/// Read the strip index and current color of the LED behind matrix
/// position `(x, y)`; same rejections as `set_matrix`, and the buffer is
/// never changed.
pub fn get_matrix(x: usize, y: usize, data: &mut Vec<Rgb>) -> (r: Result<(i16, Rgb), Error>)
    requires
        old(data)@.len() == NUM_LEDS,
    ensures
        final(data)@ == old(data)@,
        match r {
            Ok((led, c)) => mapped(x as int, y as int) && led == MATRIX_MAP[x + y * MATRIX_WIDTH]
                && c == old(data)@[led as int],
            Err(Error::OutOfBounds) => !mapped(x as int, y as int),
            Err(_) => false,
        },
{
    if x >= MATRIX_WIDTH || y >= MATRIX_HEIGHT {
        return Err(Error::OutOfBounds);
    }
    let addr = x + y * MATRIX_WIDTH;
    let led = MATRIX_MAP[addr];
    if led < 0 || led as usize >= NUM_LEDS {
        return Err(Error::OutOfBounds);
    }
    let c = data[led as usize];
    Ok((led, c))
}

/// The color at position `p` of the wheel: a transition red - green - blue
/// and back to red over the 256 positions.
pub open spec fn wheel_spec(p: u8) -> Rgb {
    let w = (255 - p) as u8;
    if w < 85 {
        Rgb { r: (255 - 3 * w) as u8, g: 0, b: (3 * w) as u8 }
    } else if w < 170 {
        Rgb { r: 0, g: (3 * (w - 85)) as u8, b: (255 - 3 * (w - 85)) as u8 }
    } else {
        Rgb { r: (3 * (w - 170)) as u8, g: (255 - 3 * (w - 170)) as u8, b: 0 }
    }
}

/// Input a value 0 to 255 to get a color value; the colors are a
/// transition r - g - b - back to r.
pub fn wheel(wheel_pos: u8) -> (c: Rgb)
    ensures
        c == wheel_spec(wheel_pos),
{
    let mut wheel_pos = 255 - wheel_pos;
    if wheel_pos < 85 {
        return Rgb::new(255 - wheel_pos * 3, 0, wheel_pos * 3);
    }
    if wheel_pos < 170 {
        wheel_pos = wheel_pos - 85;
        return Rgb::new(0, wheel_pos * 3, 255 - wheel_pos * 3);
    }
    wheel_pos = wheel_pos - 170;
    Rgb::new(wheel_pos * 3, 255 - wheel_pos * 3, 0)
}

/// A stream of wheel colors advancing a fixed step per draw.
#[derive(Clone, Copy, Debug, PartialEq, Eq, Structural)]
pub struct Rainbow {
    pos: u8,
    step: u8,
}

impl Rainbow {
    /// The wheel position the next color is taken from.
    pub closed spec fn spec_pos(self) -> u8 {
        self.pos
    }

    /// The step the position advances by.
    pub closed spec fn spec_step(self) -> u8 {
        self.step
    }

    /// A rainbow advancing `step` wheel positions per color.
    pub fn step(step: u8) -> (r: Rainbow)
        ensures
            r.spec_pos() == 0,
            r.spec_step() == step,
    {
        Rainbow { pos: 0, step }
    }

    /// The next color of the stream; the position wraps around the wheel.
    pub fn next_color(&mut self) -> (c: Rgb)
        ensures
            c == wheel_spec(old(self).spec_pos()),
            final(self).spec_pos() == (old(self).spec_pos() + old(self).spec_step()) % 256,
            final(self).spec_step() == old(self).spec_step(),
    {
        let c = wheel(self.pos);
        self.pos = self.pos.wrapping_add(self.step);
        c
    }
}

impl Default for Rainbow {
    /// A rainbow advancing one wheel position per color.
    fn default() -> (r: Rainbow)
        ensures
            r.spec_pos() == 0,
            r.spec_step() == 1,
    {
        Rainbow { pos: 0, step: 1 }
    }
}

} // verus!
