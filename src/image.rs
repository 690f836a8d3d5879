//! The in-memory pixel buffer that the codec reads into and writes from.
use vstd::prelude::*;

verus! {

/// How many bytes each pixel takes in an [`Image`]'s storage.
pub const RGBA_BYTES: usize = 4;

/// A color with 8-bit red, green, blue and alpha components.
///
/// For alpha, 0 is fully transparent and 255 fully opaque.
#[derive(Clone, Copy, Debug, PartialEq, Eq, Structural)]
pub struct RGBA {
    pub r: u8,
    pub g: u8,
    pub b: u8,
    pub a: u8,
}

impl RGBA {
    /// Builds a pixel from its four components.
    pub fn new(r: u8, g: u8, b: u8, a: u8) -> (p: RGBA)
        ensures
            p == (RGBA { r, g, b, a }),
    {
        RGBA { r, g, b, a }
    }
}

/// The black, fully transparent pixel a fresh image is filled with.
pub open spec fn blank() -> RGBA {
    RGBA { r: 0, g: 0, b: 0, a: 0 }
}

/// The pixel stored in bytes `4 * i .. 4 * i + 4` of `bytes`, in the order r, g, b, a.
pub open spec fn pixel_in(bytes: Seq<u8>, i: int) -> RGBA {
    RGBA { r: bytes[4 * i], g: bytes[4 * i + 1], b: bytes[4 * i + 2], a: bytes[4 * i + 3] }
}

/// What an image is: its size, and its pixels row by row from the top.
pub struct ImageView {
    pub width: u32,
    pub height: u32,
    pub pixels: Seq<RGBA>,
}

/// A rectangular grid of pixels, stored row by row from the top.
pub struct Image {
    // Four bytes per pixel (r, g, b, a): the layout renderers expect.
    data: Vec<u8>,
    // How many pixels are in a row, as an index type.
    row_width: usize,
    // How many pixels are in a row of the image.
    width: u32,
    // How many rows of pixels there are.
    height: u32,
}

impl Image {
    /// Well-formedness: the storage holds exactly `width * height` pixels.
    pub closed spec fn wf(&self) -> bool {
        &&& 4 * (self.width * self.height) <= usize::MAX
        &&& self.data@.len() == 4 * (self.width * self.height)
        &&& self.row_width == self.width
    }

    pub closed spec fn spec_width(&self) -> u32 {
        self.width
    }

    pub closed spec fn spec_height(&self) -> u32 {
        self.height
    }

    /// The pixels in row-major order: the pixel at column `x` of row `y`
    /// has index `y * width + x` (see [`Image::index_of`]).
    pub closed spec fn pixels(&self) -> Seq<RGBA> {
        Seq::new((self.width * self.height) as nat, |i: int| pixel_in(self.data@, i))
    }

    /// The index of the pixel at column `x`, row `y` in [`Image::pixels`].
    pub open spec fn index_of(&self, x: int, y: int) -> int {
        y * self.spec_width() + x
    }

    /// An image holds `width * height` pixels, and its storage, four bytes
    /// for each of them, fits in memory.
    pub proof fn lemma_pixel_count(&self)
        requires
            self.wf(),
        ensures
            self.pixels().len() == self.spec_width() * self.spec_height(),
            4 * (self.spec_width() * self.spec_height()) <= usize::MAX,
    {
    }

    proof fn lemma_index_in_range(&self, x: int, y: int)
        requires
            0 <= x < self.width,
            0 <= y < self.height,
        ensures
            0 <= self.index_of(x, y) < self.width * self.height,
            0 <= self.width * y + x < self.width * self.height,
            self.index_of(x, y) == self.width * y + x,
    {
        let w = self.width as int;
        let h = self.height as int;
        assert(0 <= y * w + x < w * h && y * w == w * y) by (nonlinear_arith)
            requires
                0 <= x < w,
                0 <= y < h,
        ;
    }

    /// How many pixels are in a row of the image.
    #[verifier::when_used_as_spec(spec_width)]
    pub fn width(&self) -> (w: u32)
        ensures
            w == self.spec_width(),
    {
        self.width
    }

    /// How many rows of pixels there are.
    #[verifier::when_used_as_spec(spec_height)]
    pub fn height(&self) -> (h: u32)
        ensures
            h == self.spec_height(),
    {
        self.height
    }

    /// The raw storage, four bytes per pixel in the order r, g, b, a, row by row.
    pub fn as_bytes(&self) -> (b: &[u8])
        requires
            self.wf(),
        ensures
            b@.len() == 4 * self.pixels().len(),
            forall|i: int| 0 <= i < self.pixels().len() ==> #[trigger] pixel_in(b@, i) == self.pixels()[i],
    {
        self.data.as_slice()
    }

    /// Builds an image of the given size, filled with black, transparent pixels.
    pub fn new(width: u32, height: u32) -> (image: Image)
        requires
            4 * (width * height) <= usize::MAX,
        ensures
            image.wf(),
            image.width() == width,
            image.height() == height,
            image.pixels() == Seq::new((width * height) as nat, |i: int| blank()),
    {
        let row_width = width as usize;
        let row_height = height as usize;
        proof {
            vstd::arithmetic::mul::lemma_mul_is_commutative(width as int, height as int);
        }
        let data = vec![0u8; RGBA_BYTES * (row_width * row_height)];
        let image = Image { data, row_width, width, height };
        assert(image.pixels() =~= Seq::new((width * height) as nat, |i: int| blank()));
        image
    }

    /// Whether `(x, y)` names a pixel of this image.
    pub fn in_bounds(&self, x: u32, y: u32) -> (r: bool)
        ensures
            r == (x < self.width() && y < self.height()),
    {
        x < self.width && y < self.height
    }

    /// Reads the pixel at column `x`, row `y`.
    pub fn read(&self, x: u32, y: u32) -> (p: RGBA)
        requires
            self.wf(),
            x < self.width(),
            y < self.height(),
        ensures
            p == self.pixels()[self.index_of(x as int, y as int)],
    {
        proof {
            self.lemma_index_in_range(x as int, y as int);
        }
        let i = RGBA_BYTES * (self.row_width * (y as usize) + (x as usize));
        let r = self.data[i];
        let g = self.data[i + 1];
        let b = self.data[i + 2];
        let a = self.data[i + 3];
        RGBA { r, g, b, a }
    }

    /// Writes `pixel` at column `x`, row `y`.
    pub fn write(&mut self, x: u32, y: u32, pixel: RGBA)
        requires
            old(self).wf(),
            x < old(self).width(),
            y < old(self).height(),
        ensures
            final(self).wf(),
            final(self).width() == old(self).width(),
            final(self).height() == old(self).height(),
            final(self).pixels() == old(self).pixels().update(
                old(self).index_of(x as int, y as int),
                pixel,
            ),
    {
        proof {
            self.lemma_index_in_range(x as int, y as int);
        }
        let k = self.row_width * (y as usize) + (x as usize);
        let i = RGBA_BYTES * k;
        self.data.set(i, pixel.r);
        self.data.set(i + 1, pixel.g);
        self.data.set(i + 2, pixel.b);
        self.data.set(i + 3, pixel.a);
        assert(self.pixels() =~= old(self).pixels().update(k as int, pixel));
    }
}

impl View for Image {
    type V = ImageView;

    open spec fn view(&self) -> ImageView {
        ImageView { width: self.spec_width(), height: self.spec_height(), pixels: self.pixels() }
    }
}

/// Walks the pixels of an image in row-major order.
pub struct ImageIterator<'a> {
    image: &'a Image,
    // The byte offset of the next pixel in the image's storage.
    index: usize,
}

impl<'a> ImageIterator<'a> {
    pub closed spec fn wf(&self) -> bool {
        &&& self.image.wf()
        &&& self.index % 4 == 0
        &&& self.index <= self.image.data@.len()
    }

    /// The pixels that are still to come, in order.
    pub closed spec fn pixels_left(&self) -> Seq<RGBA> {
        self.image.pixels().subrange(self.index as int / 4, self.image.pixels().len() as int)
    }

    fn new(image: &'a Image) -> (it: Self)
        requires
            image.wf(),
        ensures
            it.wf(),
            it.pixels_left() == image.pixels(),
    {
        let it = ImageIterator { image, index: 0 };
        assert(it.pixels_left() =~= image.pixels());
        it
    }

    /// Hands out the next pixel, or `None` once every pixel has been handed out.
    pub fn next(&mut self) -> (r: Option<RGBA>)
        requires
            old(self).wf(),
        ensures
            final(self).wf(),
            old(self).pixels_left().len() == 0 ==> r is None && final(self).pixels_left().len() == 0,
            old(self).pixels_left().len() > 0 ==> {
                &&& r == Some(old(self).pixels_left()[0])
                &&& final(self).pixels_left() == old(self).pixels_left().drop_first()
            },
    {
        if self.image.data.len() < 4 || self.index > self.image.data.len() - 4 {
            return None;
        }
        let r = self.image.data[self.index];
        let g = self.image.data[self.index + 1];
        let b = self.image.data[self.index + 2];
        let a = self.image.data[self.index + 3];
        proof {
            let k = self.index as int / 4;
            assert(self.index == 4 * k);
            assert(old(self).pixels_left()[0] == self.image.pixels()[k]);
        }
        self.index = self.index + 4;
        assert(self.pixels_left() =~= old(self).pixels_left().drop_first());
        Some(RGBA { r, g, b, a })
    }
}

impl Image {
    /// An iterator over the pixels of this image, in row-major order.
    pub fn iter(&self) -> (it: ImageIterator<'_>)
        requires
            self.wf(),
        ensures
            it.wf(),
            it.pixels_left() == self.pixels(),
    {
        ImageIterator::new(self)
    }
}

} // verus!
