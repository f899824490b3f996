//! The pixel grid of a picture, painted pixel by pixel: row after row from
//! the top, each row from the left.

use vstd::prelude::*;
use image::{ImageBuffer, Rgb};

verus! {

/// A colour: red, green and blue.
pub type Colour = (u8, u8, u8);

/// The colour of a pixel that has not been painted.
pub open spec fn blank() -> Colour {
    (0u8, 0u8, 0u8)
}

/// The samples of a row of pixels: for each pixel its red, its green and
/// its blue.
pub open spec fn samples(pixels: Seq<Colour>) -> Seq<u8> {
    Seq::new(
        3 * pixels.len(),
        |i: int|
            if i % 3 == 0 {
                pixels[i / 3].0
            } else if i % 3 == 1 {
                pixels[i / 3].1
            } else {
                pixels[i / 3].2
            },
    )
}

/// A pixel buffer of the crate `image`, of three channels of eight bits
/// each, over a vector of bytes. Nothing is known here of what is inside, but
/// what the functions below claim.
#[verifier::external_body]
pub struct PixelBuffer {
    inner: ImageBuffer<Rgb<u8>, Vec<u8>>,
}

/// The width and the height of a buffer.
pub uninterp spec fn dimensions(buffer: PixelBuffer) -> (u32, u32);

/// The pixels of a buffer, row after row from the top, each row from the
/// left.
pub uninterp spec fn pixels(buffer: PixelBuffer) -> Seq<Colour>;

/// Whether a vector can hold the samples of a picture, three for a pixel:
/// the samples of one row can be counted, and those of all rows are no more
/// bytes than a vector may have.
pub open spec fn fits(width: u32, height: u32) -> bool {
    3 * width <= usize::MAX && 3 * width * height <= isize::MAX
}

/// `ImageBuffer::new` of the crate `image`. It works out the number of
/// samples as three times the width, times the height, and panics where
/// either product cannot be counted; the vector it then makes panics where
/// it is asked for more bytes than a vector may have. The contract claims
/// that the buffer has the width and the height it was asked for, and that
/// each of its pixels is blank.
#[verifier::external_body]
fn new_buffer(width: u32, height: u32) -> (buffer: PixelBuffer)
    requires
        fits(width, height),
    ensures
        dimensions(buffer) == (width, height),
        pixels(buffer) == Seq::new((width * height) as nat, |i: int| blank()),
{
    PixelBuffer { inner: ImageBuffer::new(width, height) }
}

/// `ImageBuffer::put_pixel` of the crate `image`, which panics where the
/// place is outside the buffer. The contract claims that the pixel in
/// column `x` of row `y` has the given colour afterwards, and that nothing
/// else has changed.
#[verifier::external_body]
fn put_pixel(buffer: &mut PixelBuffer, x: u32, y: u32, colour: Colour)
    requires
        x < dimensions(*old(buffer)).0,
        y < dimensions(*old(buffer)).1,
    ensures
        dimensions(*final(buffer)) == dimensions(*old(buffer)),
        pixels(*final(buffer)) == pixels(*old(buffer)).update(
            y * dimensions(*old(buffer)).0 + x,
            colour,
        ),
{
    buffer.inner.put_pixel(x, y, Rgb([colour.0, colour.1, colour.2]))
}

/// `ImageBuffer::into_raw` of the crate `image`. The contract claims that
/// the vector holds the samples of the buffer's pixels.
#[verifier::external_body]
fn into_raw(buffer: PixelBuffer) -> (raw: Vec<u8>)
    ensures
        raw@ == samples(pixels(buffer)),
{
    buffer.inner.into_raw()
}

/// `ImageBuffer::dimensions` of the crate `image`: the width and the height
/// of the buffer.
#[verifier::external_body]
fn size_of(buffer: &PixelBuffer) -> (size: (u32, u32))
    ensures
        size == dimensions(*buffer),
{
    buffer.inner.dimensions()
}

/// What has been painted of a picture.
pub struct Raster {
    pub width: nat,
    pub height: nat,
    /// The colours of the pixels painted so far, in the order of painting.
    pub painted: Seq<Colour>,
}

impl Raster {
    /// The grid on which nothing has been painted.
    pub open spec fn empty(width: nat, height: nat) -> Raster {
        Raster { width, height, painted: Seq::empty() }
    }

    /// Whether every pixel has been painted.
    pub open spec fn full(self) -> bool {
        self.painted.len() >= self.width * self.height
    }

    /// The column and the row of the pixel that is painted next.
    pub open spec fn position(self) -> Option<(nat, nat)> {
        if self.full() {
            None
        } else {
            Some(
                (
                    self.painted.len() % self.width,
                    self.painted.len() / self.width,
                ),
            )
        }
    }

    /// The grid after the next pixel has been painted; a full grid stays as
    /// it is.
    pub open spec fn paint(self, colour: Colour) -> Raster {
        if self.full() {
            self
        } else {
            Raster { painted: self.painted.push(colour), ..self }
        }
    }

    /// All pixels of the grid, row after row: the painted ones, then the
    /// blank ones.
    pub open spec fn shown(self) -> Seq<Colour> {
        Seq::new(
            self.width * self.height,
            |i: int|
                if i < self.painted.len() {
                    self.painted[i]
                } else {
                    blank()
                },
        )
    }
}

/// A picture that is being painted.
pub struct Canvas {
    buffer: PixelBuffer,
    /// The column of the pixel that is painted next.
    x: u32,
    /// The row of the pixel that is painted next; the height, once the
    /// picture is full.
    y: u32,
}

impl View for Canvas {
    type V = Raster;

    closed spec fn view(&self) -> Raster {
        Raster {
            width: dimensions(self.buffer).0 as nat,
            height: dimensions(self.buffer).1 as nat,
            painted: pixels(self.buffer).take(self.y * dimensions(self.buffer).0 + self.x),
        }
    }
}

impl Canvas {
    #[verifier::type_invariant]
    spec fn inv(&self) -> bool {
        let (width, height) = dimensions(self.buffer);
        let count = self.y * width + self.x;
        &&& pixels(self.buffer).len() == width * height
        &&& forall|i: int| count <= i < width * height ==> pixels(self.buffer)[i] == blank()
        &&& if width == 0 {
            self.x == 0 && self.y == height
        } else {
            self.y <= height && self.x < width && (self.y == height ==> self.x == 0)
        }
    }

    /// A blank picture of the given width and height; none where a vector
    /// cannot hold its samples.
    pub fn new(width: u32, height: u32) -> (canvas: Option<Canvas>)
        ensures
            canvas is Some <==> fits(width, height),
            canvas matches Some(c) ==> c@ == Raster::empty(width as nat, height as nat),
    {
        assert(3 * width * height <= 3 * 0xFFFF_FFFF * 0xFFFF_FFFF) by (nonlinear_arith)
            requires
                width <= 0xFFFF_FFFF,
                height <= 0xFFFF_FFFF,
        ;
        let row: u128 = 3 * (width as u128);
        let needed: u128 = row * (height as u128);
        if row > usize::MAX as u128 || needed > isize::MAX as u128 {
            return None;
        }
        let buffer = new_buffer(width, height);
        let y: u32 = if width == 0 {
            height
        } else {
            0
        };
        assert(pixels(buffer).take(y * width + 0) =~= Seq::<Colour>::empty()) by {
            assert(y * width == 0) by (nonlinear_arith)
                requires
                    y == 0 || width == 0,
            ;
        }
        Some(Canvas { buffer, x: 0, y })
    }

    /// The column and the row of the pixel that is painted next; none once
    /// the picture is full. No more pixels are painted than the picture has.
    pub fn position(&self) -> (place: Option<(u32, u32)>)
        ensures
            match place {
                Some((x, y)) => self@.position() == Some((x as nat, y as nat)),
                None => self@.position() is None,
            },
            self@.painted.len() <= self@.width * self@.height,
    {
        proof {
            use_type_invariant(self);
            self.lemma_count();
        }
        if self.y < size_of(&self.buffer).1 {
            Some((self.x, self.y))
        } else {
            None
        }
    }

    /// What the cursor says of the number of painted pixels.
    proof fn lemma_count(&self)
        requires
            self.inv(),
        ensures
            ({
                let (width, height) = dimensions(self.buffer);
                let count = self.y * width + self.x;
                &&& self@.painted.len() == count
                &&& count <= width * height
                &&& self.y < height ==> {
                    &&& count < width * height
                    &&& count % (width as int) == self.x
                    &&& count / (width as int) == self.y
                }
                &&& self.y >= height ==> count == width * height
            }),
    {
        let (width, height) = dimensions(self.buffer);
        let x = self.x as int;
        let y = self.y as int;
        let w = width as int;
        let h = height as int;
        if w > 0 {
            assert(y * w + x <= h * w) by (nonlinear_arith)
                requires
                    0 <= x < w,
                    0 <= y <= h,
                    y == h ==> x == 0,
            ;
            if y < h {
                assert(y * w + x < h * w) by (nonlinear_arith)
                    requires
                        0 <= x < w,
                        0 <= y < h,
                ;
                vstd::arithmetic::div_mod::lemma_fundamental_div_mod_converse(y * w + x, w, y, x);
            }
            assert(h * w == w * h) by (nonlinear_arith);
        } else {
            assert(y * w + x == 0 && w * h == 0) by (nonlinear_arith)
                requires
                    w == 0,
                    x == 0,
            ;
        }
    }

    /// Paints the next pixel; a full picture stays as it is.
    pub fn paint(self, red: u8, green: u8, blue: u8) -> (next: Canvas)
        ensures
            next@ == self@.paint((red, green, blue)),
    {
        proof {
            use_type_invariant(&self);
            self.lemma_count();
        }
        let Canvas { buffer, x, y } = self;
        let (width, height) = size_of(&buffer);
        if y >= height {
            return Canvas { buffer, x, y };
        }
        let ghost count = y * width + x;
        let ghost before = pixels(buffer);
        let mut buffer = buffer;
        put_pixel(&mut buffer, x, y, (red, green, blue));
        let wrap: bool = x + 1 == width;
        let next_x: u32 = if wrap {
            0
        } else {
            x + 1
        };
        let next_y: u32 = if wrap {
            y + 1
        } else {
            y
        };
        proof {
            assert(next_y * width + next_x == count + 1) by (nonlinear_arith)
                requires
                    count == y * width + x,
                    wrap ==> next_y == y + 1 && next_x == 0 && x + 1 == width,
                    !wrap ==> next_y == y && next_x == x + 1,
            ;
            assert(pixels(buffer).take(count + 1) =~= before.take(count).push(
                (red, green, blue),
            ));
        }
        Canvas { buffer, x: next_x, y: next_y }
    }

    /// The samples of the picture, three for each pixel, row after row. There
    /// are as many pixels as the width times the height; those that were
    /// not painted are blank.
    pub fn into_samples(self) -> (raw: Vec<u8>)
        ensures
            raw@ == samples(self@.shown()),
            raw.len() == 3 * (self@.width * self@.height),
    {
        proof {
            use_type_invariant(&self);
            self.lemma_count();
            assert(pixels(self.buffer) =~= self@.shown());
        }
        into_raw(self.buffer)
    }

    /// The width and the height of the picture.
    pub fn size(&self) -> (size: (u32, u32))
        ensures
            size.0 == self@.width,
            size.1 == self@.height,
    {
        size_of(&self.buffer)
    }
}

} // verus!
