//! Static 5×5 greyscale and black-and-white images.
//!
//! The LEDs are identified by coordinates (x, y): (0, 0) is the top left,
//! x grows to the right and y towards the edge connector.
use vstd::prelude::*;
use crate::gpio::{IMAGE_COLS, IMAGE_ROWS};

verus! {

/// The number of brightness levels (0 is off).
pub const BRIGHTNESSES: usize = 10;

/// The maximum brightness level.
pub const MAX_BRIGHTNESS: u8 = 9;

/// What the display needs to know of an image: the brightness of each LED.
///
/// Brightness 0 is off, `MAX_BRIGHTNESS` is brightest; a larger value is
/// shown like `MAX_BRIGHTNESS`.
pub trait Render {
    /// The brightness of the LED at (`x`, `y`), for coordinates of the 5×5
    /// image.
    spec fn brightness(&self, x: int, y: int) -> u8;

    /// Returns the brightness of the LED at (`x`, `y`).
    fn brightness_at(&self, x: usize, y: usize) -> (b: u8)
        requires
            x < IMAGE_COLS,
            y < IMAGE_ROWS,
        ensures
            b == self.brightness(x as int, y as int),
    ;
}

/// A 5×5 image with a brightness of its own for each LED.
///
/// Uses 25 bytes of storage.
#[derive(Copy, Clone, Debug)]
pub struct GreyscaleImage {
    cells: [[u8; 5]; 5],
}

impl GreyscaleImage {
    /// The brightness stored for the LED at (`x`, `y`).
    pub closed spec fn cell(&self, x: int, y: int) -> u8 {
        self.cells[y][x]
    }

    /// Constructs a `GreyscaleImage` from an array of brightnesses: 5 rows,
    /// top first, of 5 values each, left first.
    pub fn new(data: &[[u8; 5]; 5]) -> (image: GreyscaleImage)
        ensures
            forall|x: int, y: int|
                0 <= x < 5 && 0 <= y < 5 ==> #[trigger] image.cell(x, y) == data[y][x],
    {
        GreyscaleImage { cells: *data }
    }

    /// Constructs a `GreyscaleImage` with all LEDs turned off.
    pub fn blank() -> (image: GreyscaleImage)
        ensures
            forall|x: int, y: int| 0 <= x < 5 && 0 <= y < 5 ==> #[trigger] image.cell(x, y) == 0,
    {
        GreyscaleImage { cells: [[0u8; 5]; 5] }
    }

    /// Returns the brightness of the LED at (`x`, `y`).
    pub fn brightness_at(&self, x: usize, y: usize) -> (b: u8)
        requires
            x < IMAGE_COLS,
            y < IMAGE_ROWS,
        ensures
            b == self.cell(x as int, y as int),
    {
        self.cells[y][x]
    }
}

impl Render for GreyscaleImage {
    open spec fn brightness(&self, x: int, y: int) -> u8 {
        self.cell(x, y)
    }

    fn brightness_at(&self, x: usize, y: usize) -> (b: u8) {
        GreyscaleImage::brightness_at(self, x, y)
    }
}

/// A `GreyscaleImage` renders for `tiny-led-matrix` too: a stored value
/// above `MAX_BRIGHTNESS` is handed out as `MAX_BRIGHTNESS`, and an LED
/// outside the image is off.
impl tiny_led_matrix::Render for GreyscaleImage {
    fn brightness_at(&self, x: usize, y: usize) -> (b: u8)
        ensures
            b <= MAX_BRIGHTNESS,
            x < IMAGE_COLS && y < IMAGE_ROWS ==> b == (if self.cell(x as int, y as int)
                <= MAX_BRIGHTNESS {
                self.cell(x as int, y as int)
            } else {
                MAX_BRIGHTNESS
            }),
            !(x < IMAGE_COLS && y < IMAGE_ROWS) ==> b == 0,
    {
        if x < IMAGE_COLS && y < IMAGE_ROWS {
            let b = GreyscaleImage::brightness_at(self, x, y);
            if b <= MAX_BRIGHTNESS {
                b
            } else {
                MAX_BRIGHTNESS
            }
        } else {
            0
        }
    }
}

/// The five pixels of one image row packed into a byte, pixel `x` at bit
/// `x`: each value is shifted to its place and the results are combined.
pub open spec fn row_byte(row: Seq<u8>) -> u8 {
    row[0] | (row[1] << 1) | (row[2] << 2) | (row[3] << 3) | (row[4] << 4)
}

/// Whether pixel `x` is set in a packed image row.
pub open spec fn pixel_set(rowdata: u8, x: int) -> bool {
    rowdata & (1u8 << (x as u8)) != 0
}

/// A 5×5 image with two levels of brightness only, on and off.
///
/// Uses 5 bytes of storage. Each pixel is treated as having brightness
/// either 0 or `MAX_BRIGHTNESS`.
#[derive(Copy, Clone, Debug)]
pub struct BitImage {
    rows: [u8; 5],
}

impl BitImage {
    /// The packed pixels of image row `y`.
    pub closed spec fn rowdata(&self, y: int) -> u8 {
        self.rows[y]
    }

    /// Constructs a `BitImage` from an array of 5 rows, top first, of 5
    /// values each, left first. Each value should be 0 (off) or 1 (on).
    ///
    /// The rows are packed as [`row_byte`] says, whatever the values are;
    /// where they are all 0 or 1, a pixel is on exactly where its value
    /// is 1.
    pub fn new(im: &[[u8; 5]; 5]) -> (image: BitImage)
        ensures
            forall|y: int| 0 <= y < 5 ==> #[trigger] image.rowdata(y) == row_byte(im[y]@),
            (forall|x: int, y: int| 0 <= x < 5 && 0 <= y < 5 ==> #[trigger] im[y][x] <= 1)
                ==> forall|x: int, y: int|
                0 <= x < 5 && 0 <= y < 5 ==> (#[trigger] pixel_set(image.rowdata(y), x)
                    <==> im[y][x] == 1),
    {
        let image = BitImage {
            rows: [
                pack_row(&im[0]),
                pack_row(&im[1]),
                pack_row(&im[2]),
                pack_row(&im[3]),
                pack_row(&im[4]),
            ],
        };
        image
    }

    /// Returns a new blank `BitImage`: all pixels are off.
    pub fn blank() -> (image: BitImage)
        ensures
            forall|y: int| 0 <= y < 5 ==> #[trigger] image.rowdata(y) == 0,
            forall|x: int, y: int|
                0 <= x < 5 && 0 <= y < 5 ==> !#[trigger] pixel_set(image.rowdata(y), x),
    {
        let image = BitImage { rows: [0u8; 5] };
        proof {
            assert forall|x: int, y: int| 0 <= x < 5 && 0 <= y < 5 implies !#[trigger] pixel_set(
                image.rowdata(y),
                x,
            ) by {
                let s: u8 = x as u8;
                assert(0u8 & (1u8 << s) == 0) by (bit_vector);
            }
        }
        image
    }

    /// Returns the brightness of the LED at (`x`, `y`): `MAX_BRIGHTNESS`
    /// where the pixel is on, 0 where it is off.
    pub fn brightness_at(&self, x: usize, y: usize) -> (b: u8)
        requires
            x < IMAGE_COLS,
            y < IMAGE_ROWS,
        ensures
            b == (if pixel_set(self.rowdata(y as int), x as int) {
                MAX_BRIGHTNESS
            } else {
                0
            }),
    {
        let rowdata = self.rows[y];
        if rowdata & (1u8 << (x as u8)) != 0 {
            MAX_BRIGHTNESS
        } else {
            0
        }
    }
}

/// Packs one image row into a byte.
fn pack_row(row: &[u8; 5]) -> (byte: u8)
    ensures
        byte == row_byte(row@),
        (forall|x: int| 0 <= x < 5 ==> #[trigger] row[x] <= 1) ==> forall|x: int|
            0 <= x < 5 ==> (#[trigger] pixel_set(byte, x) <==> row[x] == 1),
{
    let a = row[0];
    let b = row[1];
    let c = row[2];
    let d = row[3];
    let e = row[4];
    let byte = a | (b << 1) | (c << 2) | (d << 3) | (e << 4);
    proof {
        if forall|x: int| 0 <= x < 5 ==> #[trigger] row[x] <= 1 {
            assert(a <= 1 && b <= 1 && c <= 1 && d <= 1 && e <= 1);
            assert((byte & (1u8 << 0u8) != 0 <==> a == 1) && (byte & (1u8 << 1u8) != 0 <==> b == 1)
                && (byte & (1u8 << 2u8) != 0 <==> c == 1) && (byte & (1u8 << 3u8) != 0 <==> d == 1)
                && (byte & (1u8 << 4u8) != 0 <==> e == 1)) by (bit_vector)
                requires
                    byte == a | (b << 1) | (c << 2) | (d << 3) | (e << 4),
                    a <= 1 && b <= 1 && c <= 1 && d <= 1 && e <= 1,
            ;
            assert forall|x: int| 0 <= x < 5 implies (#[trigger] pixel_set(byte, x) <==> row[x]
                == 1) by {
                assert(x == 0 || x == 1 || x == 2 || x == 3 || x == 4);
            }
        }
    }
    byte
}

impl Render for BitImage {
    open spec fn brightness(&self, x: int, y: int) -> u8 {
        if pixel_set(self.rowdata(y), x) {
            MAX_BRIGHTNESS
        } else {
            0
        }
    }

    fn brightness_at(&self, x: usize, y: usize) -> (b: u8) {
        BitImage::brightness_at(self, x, y)
    }
}

/// A `BitImage` renders for `tiny-led-matrix` too; an LED outside the image
/// is off.
impl tiny_led_matrix::Render for BitImage {
    fn brightness_at(&self, x: usize, y: usize) -> (b: u8)
        ensures
            b == (if x < IMAGE_COLS && y < IMAGE_ROWS && pixel_set(
                self.rowdata(y as int),
                x as int,
            ) {
                MAX_BRIGHTNESS
            } else {
                0
            }),
    {
        if x < IMAGE_COLS && y < IMAGE_ROWS {
            BitImage::brightness_at(self, x, y)
        } else {
            0
        }
    }
}

} // verus!
