//! The immutable image buffer: a rectangular grid of pixels in one
//! format, stored row-major as one flat byte run. Every operation that
//! changes a buffer returns a new one; storage length always equals
//! `height * width * channels`.

use core::marker::PhantomData;
use crate::pixel::{Gray, GrayA, Pixel, PixelConvert, RGB, RGBA};
use vstd::arithmetic::div_mod::{
    lemma_fundamental_div_mod, lemma_mod_division_less_than_divisor, lemma_multiply_divide_lt,
};
use vstd::arithmetic::mul::lemma_mul_is_associative;
use vstd::prelude::*;
use vstd::slice::{slice_subrange, slice_to_vec};

verus! {

/// `s` forced to length `n`: truncated if long, zero-padded if short.
pub open spec fn normalize_bytes(s: Seq<u8>, n: int) -> Seq<u8>
    recommends
        0 <= n,
{
    if n <= s.len() {
        s.subrange(0, n)
    } else {
        s + Seq::new((n - s.len()) as nat, |i: int| 0u8)
    }
}

/// The length of an axis after trimming `lo` at one end and `hi` at the
/// other: left untouched when the requested trim would consume the
/// whole axis.
pub open spec fn crop_len(n: int, lo: int, hi: int) -> int {
    if lo + hi < n {
        n - lo - hi
    } else {
        n
    }
}

/// The offset, along the original axis, of the cropped axis's origin.
pub open spec fn crop_shift(n: int, lo: int, hi: int) -> int {
    if lo + hi < n {
        lo
    } else {
        0
    }
}

/// An immutable image: dimensions plus a flat, exclusively owned byte
/// run of exactly `height * width * channels` bytes, rows top-to-bottom,
/// pixels left-to-right within a row.
pub struct Image<P: Pixel> {
    height: usize,
    width: usize,
    data: Vec<u8>,
    phantom: PhantomData<P>,
}

impl<P: Pixel> Image<P> {
    pub closed spec fn spec_height(self) -> int {
        self.height as int
    }

    pub closed spec fn spec_width(self) -> int {
        self.width as int
    }

    /// The stored byte run.
    pub closed spec fn bytes(self) -> Seq<u8> {
        self.data@
    }

    /// Bytes in one row.
    pub open spec fn spec_row_size(self) -> int {
        self.spec_width() * P::channels()
    }

    /// Bytes in the whole grid.
    pub open spec fn byte_size(self) -> int {
        self.spec_height() * self.spec_width() * P::channels()
    }

    /// The storage invariant: the byte run has exactly the grid's size,
    /// and row and grid sizes fit the machine.
    pub open spec fn wf(self) -> bool {
        &&& self.bytes().len() == self.byte_size()
        &&& self.spec_row_size() <= usize::MAX
        &&& self.byte_size() <= usize::MAX
    }

    /// Byte offset of the pixel at column `x` of row `y`.
    pub open spec fn pixel_index(self, x: int, y: int) -> int {
        y * self.spec_row_size() + x * P::channels()
    }

    /// The pixel at column `x` of row `y`, decoded from its byte run.
    pub open spec fn pixel_at(self, x: int, y: int) -> P {
        P::dec(
            self.bytes().subrange(
                self.pixel_index(x, y),
                self.pixel_index(x, y) + P::channels(),
            ),
        )
    }

    /// The byte run of row `y`.
    pub open spec fn row(self, y: int) -> Seq<u8> {
        self.bytes().subrange(y * self.spec_row_size(), (y + 1) * self.spec_row_size())
    }

    /// In-bounds pixel coordinates address an in-bounds byte run.
    pub proof fn lemma_pixel_index_bounds(self, x: int, y: int)
        requires
            0 <= x < self.spec_width(),
            0 <= y < self.spec_height(),
        ensures
            0 <= self.pixel_index(x, y),
            self.pixel_index(x, y) + P::channels() <= self.byte_size(),
            self.pixel_index(x, y) == (y * self.spec_width() + x) * P::channels(),
            0 <= y * self.spec_row_size(),
            0 <= x * P::channels(),
    {
        P::lemma_channels();
        lemma_grid_arith(self.spec_height(), self.spec_width(), P::channels(), x, y);
    }

    fn make_image(height: usize, width: usize, data: Vec<u8>) -> (img: Image<P>)
        ensures
            img.spec_height() == height,
            img.spec_width() == width,
            img.bytes() == data@,
    {
        Image { height, width, data, phantom: PhantomData }
    }

    fn shrink_data(&mut self)
        requires
            old(self).spec_row_size() <= usize::MAX,
            old(self).byte_size() <= usize::MAX,
        ensures
            final(self).spec_height() == old(self).spec_height(),
            final(self).spec_width() == old(self).spec_width(),
            final(self).bytes() == normalize_bytes(old(self).bytes(), old(self).byte_size()),
            final(self).wf(),
    {
        let ghost orig = self.data@;
        proof {
            P::lemma_channels();
            lemma_mul_is_associative(
                old(self).spec_height(),
                old(self).spec_width(),
                P::channels(),
            );
        }
        let size = self.height * (self.width * P::num_channels());
        if self.data.len() > size {
            self.data.truncate(size);
            proof {
                assert(self.data@ =~= normalize_bytes(orig, size as int));
            }
        } else {
            proof {
                assert(self.data@.subrange(0, orig.len() as int) =~= orig);
            }
            while self.data.len() < size
                invariant
                    self.height == old(self).height,
                    self.width == old(self).width,
                    self.data@.len() <= size,
                    orig.len() <= self.data@.len(),
                    self.data@.subrange(0, orig.len() as int) == orig,
                    forall|i: int| orig.len() <= i < self.data@.len() ==> self.data@[i] == 0u8,
                decreases size - self.data@.len(),
            {
                self.data.push(0u8);
                proof {
                    assert(self.data@.subrange(0, orig.len() as int) =~= orig);
                }
            }
            proof {
                assert(self.data@ =~= normalize_bytes(orig, size as int));
            }
        }
    }

    /// Builds a buffer from dimensions and a byte run, forcing storage
    /// to exactly the grid's size: trailing bytes are dropped, missing
    /// bytes are filled with zero. Never fails.
    pub fn new(height: usize, width: usize, data: Vec<u8>) -> (img: Image<P>)
        requires
            width * P::channels() <= usize::MAX,
            height * width * P::channels() <= usize::MAX,
        ensures
            img.wf(),
            img.spec_height() == height,
            img.spec_width() == width,
            img.bytes() == normalize_bytes(data@, height * width * P::channels()),
    {
        let mut image = Image::make_image(height, width, data);
        image.shrink_data();
        image
    }

    pub fn height(&self) -> (h: usize)
        ensures
            h as int == self.spec_height(),
    {
        self.height
    }

    pub fn width(&self) -> (w: usize)
        ensures
            w as int == self.spec_width(),
    {
        self.width
    }

    pub fn data(&self) -> (d: &[u8])
        ensures
            d@ == self.bytes(),
    {
        self.data.as_slice()
    }

    pub fn into_raw(self) -> (d: Vec<u8>)
        ensures
            d@ == self.bytes(),
    {
        self.data
    }

    pub fn row_size(&self) -> (r: usize)
        requires
            self.spec_row_size() <= usize::MAX,
        ensures
            r as int == self.spec_row_size(),
    {
        self.width * P::num_channels()
    }

    /// The pixel at column `x` of row `y`, 0-indexed from the top left.
    pub fn get_pixel(&self, x: usize, y: usize) -> (p: P)
        requires
            self.wf(),
            x < self.spec_width(),
            y < self.spec_height(),
        ensures
            p == self.pixel_at(x as int, y as int),
    {
        proof {
            P::lemma_channels();
            self.lemma_pixel_index_bounds(x as int, y as int);
        }
        let off = y * self.row_size() + x * P::num_channels();
        P::from_slice(self.data.as_slice(), off)
    }

    /// The buffer as a row-major grid of decoded pixel values.
    pub fn to_pixels(&self) -> (pixels: Vec<Vec<P>>)
        requires
            self.wf(),
        ensures
            pixels@.len() == self.spec_height(),
            forall|y: int|
                0 <= y < self.spec_height() ==> #[trigger] pixels@[y]@.len()
                    == self.spec_width(),
            forall|y: int, x: int|
                0 <= y < self.spec_height() && 0 <= x < self.spec_width()
                    ==> #[trigger] pixels@[y]@[x] == self.pixel_at(x, y),
    {
        let mut pixels: Vec<Vec<P>> = Vec::new();
        let mut y: usize = 0;
        while y < self.height
            invariant
                self.wf(),
                y <= self.spec_height(),
                pixels@.len() == y,
                forall|yy: int|
                    0 <= yy < y ==> #[trigger] pixels@[yy]@.len() == self.spec_width(),
                forall|yy: int, x: int|
                    0 <= yy < y && 0 <= x < self.spec_width()
                        ==> #[trigger] pixels@[yy]@[x] == self.pixel_at(x, yy),
            decreases self.spec_height() - y,
        {
            let mut row: Vec<P> = Vec::new();
            let mut x: usize = 0;
            while x < self.width
                invariant
                    self.wf(),
                    y < self.spec_height(),
                    x <= self.spec_width(),
                    row@.len() == x,
                    forall|xx: int|
                        0 <= xx < x ==> #[trigger] row@[xx] == self.pixel_at(xx, y as int),
                decreases self.spec_width() - x,
            {
                row.push(self.get_pixel(x, y));
                x += 1;
            }
            pixels.push(row);
            y += 1;
        }
        pixels
    }

    /// Assembles a buffer from a rectangular row-major grid of pixel
    /// values. An empty grid (no rows, or empty rows) yields the empty
    /// zero-by-zero buffer.
    pub fn from_pixels(pixels: Vec<Vec<P>>) -> (img: Image<P>)
        requires
            forall|y: int|
                0 <= y < pixels@.len() ==> #[trigger] pixels@[y]@.len() == pixels@[0]@.len(),
            pixels@.len() > 0 ==> pixels@[0]@.len() * P::channels() <= usize::MAX
                && pixels@.len() * pixels@[0]@.len() * P::channels() <= usize::MAX,
        ensures
            img.wf(),
            pixels@.len() == 0 || pixels@[0]@.len() == 0 ==> img.spec_height() == 0
                && img.spec_width() == 0,
            pixels@.len() > 0 && pixels@[0]@.len() > 0 ==> {
                &&& img.spec_height() == pixels@.len()
                &&& img.spec_width() == pixels@[0]@.len()
                &&& forall|y: int, x: int|
                    0 <= y < pixels@.len() && 0 <= x < pixels@[0]@.len()
                        ==> #[trigger] img.pixel_at(x, y) == pixels@[y]@[x]
            },
    {
        if pixels.is_empty() || pixels[0].is_empty() {
            proof {
                assert(0 * 0 * P::channels() == 0 && 0 * P::channels() == 0) by (nonlinear_arith);
            }
            Image::make_image(0, 0, Vec::new())
        } else {
            let height = pixels.len();
            let width = pixels[0].len();
            let ghost w = width as int;
            let ghost c = P::channels();
            let mut data: Vec<u8> = Vec::new();
            proof {
                P::lemma_channels();
            }
            let mut y: usize = 0;
            while y < height
                invariant
                    forall|yy: int|
                        0 <= yy < pixels@.len() ==> #[trigger] pixels@[yy]@.len() == w,
                    height == pixels@.len(),
                    w == width as int,
                    c == P::channels(),
                    1 <= c <= 4,
                    0 < width,
                    w * c <= usize::MAX,
                    height * w * c <= usize::MAX,
                    y <= height,
                    data@.len() == y * w * c,
                    forall|yy: int, xx: int|
                        0 <= yy < y && 0 <= xx < w ==> #[trigger] grid_run(data@, w, c, xx, yy)
                            == pixels@[yy]@[xx].enc(),
                decreases height - y,
            {
                let mut x: usize = 0;
                proof {
                    lemma_grid_row_arith(y as int, w, c);
                }
                while x < width
                    invariant
                        forall|yy: int|
                            0 <= yy < pixels@.len() ==> #[trigger] pixels@[yy]@.len() == w,
                        height == pixels@.len(),
                        w == width as int,
                        c == P::channels(),
                        1 <= c <= 4,
                        0 < width,
                        w * c <= usize::MAX,
                        height * w * c <= usize::MAX,
                        y < height,
                        x <= width,
                        data@.len() == (y * w + x) * c,
                        forall|yy: int, xx: int|
                            (0 <= yy < y && 0 <= xx < w) || (yy == y && 0 <= xx < x)
                                ==> #[trigger] grid_run(data@, w, c, xx, yy)
                                    == pixels@[yy]@[xx].enc(),
                    decreases width - x,
                {
                    let ghost before = data@;
                    let p = pixels[y][x];
                    let mut piece = p.into_vec();
                    proof {
                        p.lemma_enc_len();
                    }
                    data.append(&mut piece);
                    proof {
                        assert(data@.subrange(0, before.len() as int) =~= before);
                        lemma_grid_append(before, data@, w, c, x as int, y as int);
                        assert(grid_run(data@, w, c, x as int, y as int) =~= p.enc());
                    }
                    x += 1;
                }
                y += 1;
            }
            let img = Image::make_image(height, width, data);
            proof {
                lemma_mul_is_associative(height as int, w, c);
                assert forall|y: int, x: int|
                    0 <= y < pixels@.len() && 0 <= x < w implies #[trigger] img.pixel_at(x, y)
                        == pixels@[y]@[x] by {
                    img.lemma_pixel_index_bounds(x, y);
                    assert(img.bytes().subrange(
                        img.pixel_index(x, y),
                        img.pixel_index(x, y) + c,
                    ) =~= grid_run(img.bytes(), w, c, x, y));
                    pixels@[y]@[x].lemma_dec_of_enc();
                }
            }
            img
        }
    }

    /// A new buffer of the same dimensions where every pixel has been
    /// mapped through the conversion matrix from `P` to `Q`.
    pub fn convert<Q: Pixel>(&self) -> (img: Image<Q>) where P: PixelConvert<Q>
        requires
            self.wf(),
            self.spec_width() * Q::channels() <= usize::MAX,
            self.spec_height() * self.spec_width() * Q::channels() <= usize::MAX,
        ensures
            img.wf(),
            img.spec_height() == self.spec_height(),
            img.spec_width() == self.spec_width(),
            forall|y: int, x: int|
                0 <= y < self.spec_height() && 0 <= x < self.spec_width()
                    ==> #[trigger] img.pixel_at(x, y) == <P as PixelConvert<Q>>::convert_spec(
                    self.pixel_at(x, y),
                ),
    {
        let height = self.height;
        let width = self.width;
        let ghost w = width as int;
        let ghost c = Q::channels();
        let mut data: Vec<u8> = Vec::new();
        proof {
            Q::lemma_channels();
            assert(0 * w * c == 0) by (nonlinear_arith);
        }
        let mut y: usize = 0;
        while y < height
            invariant
                self.wf(),
                height == self.spec_height(),
                w == self.spec_width(),
                width as int == w,
                c == Q::channels(),
                1 <= c <= 4,
                w * c <= usize::MAX,
                height * w * c <= usize::MAX,
                y <= height,
                data@.len() == y * w * c,
                forall|yy: int, xx: int|
                    0 <= yy < y && 0 <= xx < w ==> #[trigger] grid_run(data@, w, c, xx, yy)
                        == <P as PixelConvert<Q>>::convert_spec(self.pixel_at(xx, yy)).enc(),
            decreases height - y,
        {
            proof {
                lemma_grid_row_arith(y as int, w, c);
            }
            let mut x: usize = 0;
            while x < width
                invariant
                    self.wf(),
                    height == self.spec_height(),
                    w == self.spec_width(),
                    width as int == w,
                    c == Q::channels(),
                    1 <= c <= 4,
                    w * c <= usize::MAX,
                    height * w * c <= usize::MAX,
                    y < height,
                    x <= width,
                    data@.len() == (y * w + x) * c,
                    forall|yy: int, xx: int|
                        (0 <= yy < y && 0 <= xx < w) || (yy == y && 0 <= xx < x)
                            ==> #[trigger] grid_run(data@, w, c, xx, yy)
                                == <P as PixelConvert<Q>>::convert_spec(
                                self.pixel_at(xx, yy),
                            ).enc(),
                decreases width - x,
            {
                let ghost before = data@;
                let q: Q = self.get_pixel(x, y).convert();
                let mut piece = q.into_vec();
                proof {
                    q.lemma_enc_len();
                }
                data.append(&mut piece);
                proof {
                    assert(data@.subrange(0, before.len() as int) =~= before);
                    lemma_grid_append(before, data@, w, c, x as int, y as int);
                    assert(grid_run(data@, w, c, x as int, y as int) =~= q.enc());
                }
                x += 1;
            }
            y += 1;
        }
        let img = Image::<Q>::new(height, width, data);
        proof {
            assert(img.bytes() =~= data@);
            assert forall|yy: int, xx: int|
                0 <= yy < self.spec_height() && 0 <= xx < self.spec_width()
                    implies #[trigger] img.pixel_at(xx, yy) == <P as PixelConvert<
                Q,
            >>::convert_spec(self.pixel_at(xx, yy)) by {
                img.lemma_pixel_index_bounds(xx, yy);
                assert(img.bytes().subrange(
                    img.pixel_index(xx, yy),
                    img.pixel_index(xx, yy) + c,
                ) =~= grid_run(img.bytes(), w, c, xx, yy));
                <P as PixelConvert<Q>>::convert_spec(self.pixel_at(xx, yy)).lemma_dec_of_enc();
            }
        }
        img
    }

    /// Removes `amt` rows from the top; a request of the whole height
    /// or more leaves the buffer unchanged.
    fn crop_top(&self, amt: usize) -> (img: Image<P>)
        requires
            self.wf(),
        ensures
            img.wf(),
            img.spec_width() == self.spec_width(),
            img.spec_height() == crop_len(self.spec_height(), amt as int, 0),
            forall|y: int, x: int|
                0 <= y < img.spec_height() && 0 <= x < self.spec_width()
                    ==> #[trigger] img.pixel_at(x, y) == self.pixel_at(
                    x,
                    y + crop_shift(self.spec_height(), amt as int, 0),
                ),
            amt == 0 || amt >= self.spec_height() ==> img.bytes() == self.bytes(),
    {
        proof {
            P::lemma_channels();
        }
        if self.height <= amt {
            return self.clone();
        }
        proof {
            lemma_row_bounds(self.spec_height(), self.spec_width(), P::channels(), amt as int);
        }
        let start = amt * self.row_size();
        let data = slice_to_vec(slice_subrange(self.data.as_slice(), start, self.data.len()));
        let img = Image::make_image(self.height - amt, self.width, data);
        proof {
            lemma_row_bounds(
                self.spec_height(),
                self.spec_width(),
                P::channels(),
                self.spec_height() - amt,
            );
            let c = P::channels();
            let rs = self.spec_width() * c;
            assert forall|y: int, x: int|
                0 <= y < img.spec_height() && 0 <= x < self.spec_width()
                    implies #[trigger] img.pixel_at(x, y) == self.pixel_at(x, y + amt) by {
                img.lemma_pixel_index_bounds(x, y);
                self.lemma_pixel_index_bounds(x, y + amt);
                assert((y + amt) * rs == y * rs + amt * rs) by (nonlinear_arith);
                assert(img.bytes().subrange(
                    img.pixel_index(x, y),
                    img.pixel_index(x, y) + c,
                ) =~= self.bytes().subrange(
                    self.pixel_index(x, y + amt),
                    self.pixel_index(x, y + amt) + c,
                ));
            }
            if amt == 0 {
                assert(img.bytes() =~= self.bytes());
            }
        }
        img
    }

    /// Removes `amt` rows from the bottom; a request of the whole
    /// height or more leaves the buffer unchanged.
    fn crop_bottom(&self, amt: usize) -> (img: Image<P>)
        requires
            self.wf(),
        ensures
            img.wf(),
            img.spec_width() == self.spec_width(),
            img.spec_height() == crop_len(self.spec_height(), 0, amt as int),
            forall|y: int, x: int|
                0 <= y < img.spec_height() && 0 <= x < self.spec_width()
                    ==> #[trigger] img.pixel_at(x, y) == self.pixel_at(x, y),
            amt == 0 || amt >= self.spec_height() ==> img.bytes() == self.bytes(),
    {
        proof {
            P::lemma_channels();
        }
        if self.height <= amt {
            return self.clone();
        }
        proof {
            lemma_row_bounds(self.spec_height(), self.spec_width(), P::channels(), amt as int);
            lemma_row_bounds(
                self.spec_height(),
                self.spec_width(),
                P::channels(),
                self.spec_height() - amt,
            );
        }
        let end = (self.height - amt) * self.row_size();
        let data = slice_to_vec(slice_subrange(self.data.as_slice(), 0, end));
        let img = Image::make_image(self.height - amt, self.width, data);
        proof {
            let c = P::channels();
            assert forall|y: int, x: int|
                0 <= y < img.spec_height() && 0 <= x < self.spec_width()
                    implies #[trigger] img.pixel_at(x, y) == self.pixel_at(x, y) by {
                img.lemma_pixel_index_bounds(x, y);
                self.lemma_pixel_index_bounds(x, y);
                assert(img.bytes().subrange(
                    img.pixel_index(x, y),
                    img.pixel_index(x, y) + c,
                ) =~= self.bytes().subrange(
                    self.pixel_index(x, y),
                    self.pixel_index(x, y) + c,
                ));
            }
            if amt == 0 {
                assert(img.bytes() =~= self.bytes());
            }
        }
        img
    }

    /// Removes `amt` columns from the left of every row; a request of
    /// the whole width or more leaves the buffer unchanged.
    fn crop_left(&self, amt: usize) -> (img: Image<P>)
        requires
            self.wf(),
        ensures
            img.wf(),
            img.spec_height() == self.spec_height(),
            img.spec_width() == crop_len(self.spec_width(), amt as int, 0),
            forall|y: int, x: int|
                0 <= y < self.spec_height() && 0 <= x < img.spec_width()
                    ==> #[trigger] img.pixel_at(x, y) == self.pixel_at(
                    x + crop_shift(self.spec_width(), amt as int, 0),
                    y,
                ),
            amt == 0 || amt >= self.spec_width() ==> img.bytes() == self.bytes(),
    {
        proof {
            P::lemma_channels();
        }
        if self.width <= amt || amt == 0 {
            return self.clone();
        }
        let ghost h = self.spec_height();
        let ghost w = self.spec_width();
        let ghost c = P::channels();
        let ghost nw = w - amt;
        proof {
            assert(amt * c <= w * c && nw * c <= w * c && 0 * (nw * c) == 0)
                by (nonlinear_arith)
                requires
                    0 <= amt <= w,
                    0 <= nw <= w,
                    0 <= c,
            ;
            lemma_row_bounds(h, w, c, h);
        }
        let nwidth = self.width - amt;
        let amt_bytes = amt * P::num_channels();
        let mut data: Vec<u8> = Vec::new();
        let mut i: usize = 0;
        while i < self.height
            invariant
                self.wf(),
                h == self.spec_height(),
                w == self.spec_width(),
                c == P::channels(),
                1 <= c,
                0 < amt < w,
                nw == w - amt,
                nwidth as int == nw,
                amt_bytes as int == amt * c,
                i <= h,
                data@.len() == i * (nw * c),
                forall|yy: int, xx: int|
                    0 <= yy < i && 0 <= xx < nw ==> #[trigger] grid_run(data@, nw, c, xx, yy)
                        == self.bytes().subrange(
                        self.pixel_index(amt + xx, yy),
                        self.pixel_index(amt + xx, yy) + c,
                    ),
            decreases h - i,
        {
            let ghost before = data@;
            proof {
                assert(0 <= i * (w * c) && i * (w * c) + (w * c) <= h * (w * c))
                    by (nonlinear_arith)
                    requires
                        0 <= i < h,
                        0 <= w,
                        0 <= c,
                ;
                lemma_row_bounds(h, w, c, h);
                assert((w - amt) * c == w * c - amt * c) by (nonlinear_arith);
            }
            let start = i * self.row_size();
            let end = start + self.row_size();
            let row_slice = slice_subrange(self.data.as_slice(), start + amt_bytes, end);
            let mut chunk = slice_to_vec(row_slice);
            data.append(&mut chunk);
            proof {
                assert(data@.subrange(0, before.len() as int) =~= before);
                lemma_grid_append_row(before, data@, nw, c, i as int);
                assert forall|xx: int|
                    0 <= xx < nw implies #[trigger] grid_run(data@, nw, c, xx, i as int)
                        == self.bytes().subrange(
                        self.pixel_index(amt + xx, i as int),
                        self.pixel_index(amt + xx, i as int) + c,
                    ) by {
                    self.lemma_pixel_index_bounds(amt + xx, i as int);
                    assert((amt + xx) * c == amt * c + xx * c && 0 <= xx * c && xx * c + c
                        <= nw * c) by (nonlinear_arith)
                        requires
                            0 <= xx < nw,
                            1 <= c,
                            0 <= amt,
                    ;
                    assert(data@.subrange(
                        before.len() + xx * c,
                        before.len() + xx * c + c,
                    ) =~= self.bytes().subrange(
                        self.pixel_index(amt + xx, i as int),
                        self.pixel_index(amt + xx, i as int) + c,
                    ));
                }
            }
            i += 1;
        }
        let img = Image::make_image(self.height, nwidth, data);
        proof {
            lemma_row_bounds(h, nw, c, h);
            assert(h * (nw * c) <= h * (w * c)) by (nonlinear_arith)
                requires
                    0 <= h,
                    0 <= nw * c <= w * c,
            ;
            lemma_row_bounds(h, w, c, h);
            assert forall|y: int, x: int|
                0 <= y < h && 0 <= x < nw implies #[trigger] img.pixel_at(x, y)
                    == self.pixel_at(x + amt, y) by {
                img.lemma_pixel_index_bounds(x, y);
                assert(img.bytes().subrange(
                    img.pixel_index(x, y),
                    img.pixel_index(x, y) + c,
                ) =~= grid_run(img.bytes(), nw, c, x, y));
            }
        }
        img
    }

    /// Removes `amt` columns from the right of every row; a request of
    /// the whole width or more leaves the buffer unchanged.
    fn crop_right(&self, amt: usize) -> (img: Image<P>)
        requires
            self.wf(),
        ensures
            img.wf(),
            img.spec_height() == self.spec_height(),
            img.spec_width() == crop_len(self.spec_width(), 0, amt as int),
            forall|y: int, x: int|
                0 <= y < self.spec_height() && 0 <= x < img.spec_width()
                    ==> #[trigger] img.pixel_at(x, y) == self.pixel_at(x, y),
            amt == 0 || amt >= self.spec_width() ==> img.bytes() == self.bytes(),
    {
        proof {
            P::lemma_channels();
        }
        if self.width <= amt || amt == 0 {
            return self.clone();
        }
        let ghost h = self.spec_height();
        let ghost w = self.spec_width();
        let ghost c = P::channels();
        let ghost nw = w - amt;
        proof {
            assert(amt * c <= w * c && nw * c <= w * c && 0 * (nw * c) == 0)
                by (nonlinear_arith)
                requires
                    0 <= amt <= w,
                    0 <= nw <= w,
                    0 <= c,
            ;
            lemma_row_bounds(h, w, c, h);
        }
        let nwidth = self.width - amt;
        let amt_bytes = amt * P::num_channels();
        let mut data: Vec<u8> = Vec::new();
        let mut i: usize = 0;
        while i < self.height
            invariant
                self.wf(),
                h == self.spec_height(),
                w == self.spec_width(),
                c == P::channels(),
                1 <= c,
                0 < amt < w,
                nw == w - amt,
                nwidth as int == nw,
                amt_bytes as int == amt * c,
                i <= h,
                data@.len() == i * (nw * c),
                forall|yy: int, xx: int|
                    0 <= yy < i && 0 <= xx < nw ==> #[trigger] grid_run(data@, nw, c, xx, yy)
                        == self.bytes().subrange(
                        self.pixel_index(xx, yy),
                        self.pixel_index(xx, yy) + c,
                    ),
            decreases h - i,
        {
            let ghost before = data@;
            proof {
                assert(0 <= i * (w * c) && i * (w * c) + (w * c) <= h * (w * c))
                    by (nonlinear_arith)
                    requires
                        0 <= i < h,
                        0 <= w,
                        0 <= c,
                ;
                lemma_row_bounds(h, w, c, h);
                assert((w - amt) * c == w * c - amt * c) by (nonlinear_arith);
            }
            let start = i * self.row_size();
            let end = start + self.row_size();
            let row_slice = slice_subrange(self.data.as_slice(), start, end - amt_bytes);
            let mut chunk = slice_to_vec(row_slice);
            data.append(&mut chunk);
            proof {
                assert(data@.subrange(0, before.len() as int) =~= before);
                lemma_grid_append_row(before, data@, nw, c, i as int);
                assert forall|xx: int|
                    0 <= xx < nw implies #[trigger] grid_run(data@, nw, c, xx, i as int)
                        == self.bytes().subrange(
                        self.pixel_index(xx, i as int),
                        self.pixel_index(xx, i as int) + c,
                    ) by {
                    self.lemma_pixel_index_bounds(xx, i as int);
                    assert(0 <= xx * c && xx * c + c <= nw * c) by (nonlinear_arith)
                        requires
                            0 <= xx < nw,
                            1 <= c,
                    ;
                    assert(data@.subrange(
                        before.len() + xx * c,
                        before.len() + xx * c + c,
                    ) =~= self.bytes().subrange(
                        self.pixel_index(xx, i as int),
                        self.pixel_index(xx, i as int) + c,
                    ));
                }
            }
            i += 1;
        }
        let img = Image::make_image(self.height, nwidth, data);
        proof {
            lemma_row_bounds(h, nw, c, h);
            assert(h * (nw * c) <= h * (w * c)) by (nonlinear_arith)
                requires
                    0 <= h,
                    0 <= nw * c <= w * c,
            ;
            lemma_row_bounds(h, w, c, h);
            assert forall|y: int, x: int|
                0 <= y < h && 0 <= x < nw implies #[trigger] img.pixel_at(x, y)
                    == self.pixel_at(x, y) by {
                img.lemma_pixel_index_bounds(x, y);
                assert(img.bytes().subrange(
                    img.pixel_index(x, y),
                    img.pixel_index(x, y) + c,
                ) =~= grid_run(img.bytes(), nw, c, x, y));
            }
        }
        img
    }

    /// Crops `left` and `right` columns and `top` and `bottom` rows
    /// away, returning the remaining sub-rectangle as a new buffer. A
    /// request that would consume a whole axis leaves that axis
    /// untouched instead; cropping nothing returns a byte-identical
    /// copy.
    pub fn crop(&self, left: usize, right: usize, top: usize, bottom: usize) -> (img: Image<P>)
        requires
            self.wf(),
        ensures
            img.wf(),
            img.spec_height() == crop_len(self.spec_height(), top as int, bottom as int),
            img.spec_width() == crop_len(self.spec_width(), left as int, right as int),
            forall|y: int, x: int|
                0 <= y < img.spec_height() && 0 <= x < img.spec_width()
                    ==> #[trigger] img.pixel_at(x, y) == self.pixel_at(
                    x + crop_shift(self.spec_width(), left as int, right as int),
                    y + crop_shift(self.spec_height(), top as int, bottom as int),
                ),
            left == 0 && right == 0 && top == 0 && bottom == 0 ==> img.bytes() == self.bytes(),
    {
        let vert = if top < self.height && bottom < self.height - top {
            let t = self.crop_top(top);
            t.crop_bottom(bottom)
        } else {
            self.clone()
        };
        let img = if left < self.width && right < self.width - left {
            let l = vert.crop_left(left);
            l.crop_right(right)
        } else {
            vert
        };
        img
    }

    /// A pixel's byte run is a slice of its row.
    pub proof fn lemma_pixel_from_row(self, x: int, y: int)
        requires
            self.wf(),
            0 <= x < self.spec_width(),
            0 <= y < self.spec_height(),
        ensures
            self.pixel_at(x, y) == P::dec(
                self.row(y).subrange(x * P::channels(), x * P::channels() + P::channels()),
            ),
    {
        P::lemma_channels();
        self.lemma_pixel_index_bounds(x, y);
        let c = P::channels();
        let rs = self.spec_row_size();
        lemma_row_bounds(self.spec_height(), self.spec_width(), P::channels(), y + 1);
        assert(0 <= x * c && x * c + c <= rs && 0 <= y * rs && y * rs + rs == (y + 1) * rs
            && (y + 1) * rs == (y + 1) * (self.spec_width() * c)) by (nonlinear_arith)
            requires
                1 <= c,
                0 <= x < self.spec_width(),
                0 <= y,
                rs == self.spec_width() * c,
        ;
        assert(self.row(y).subrange(x * c, x * c + c) =~= self.bytes().subrange(
            self.pixel_index(x, y),
            self.pixel_index(x, y) + c,
        ));
    }

    /// A well-formed buffer's bytes are determined by its dimensions
    /// and its pixels: two buffers of equal dimensions whose pixels
    /// agree everywhere hold identical byte runs, because each format's
    /// codec is a bijection between pixel values and byte runs.
    pub proof fn lemma_bytes_from_pixels(self, other: Image<P>)
        requires
            self.wf(),
            other.wf(),
            other.spec_height() == self.spec_height(),
            other.spec_width() == self.spec_width(),
            forall|y: int, x: int|
                0 <= y < self.spec_height() && 0 <= x < self.spec_width()
                    ==> #[trigger] self.pixel_at(x, y) == other.pixel_at(x, y),
        ensures
            other.bytes() == self.bytes(),
    {
        let h = self.spec_height();
        let w = self.spec_width();
        let c = P::channels();
        let rs = w * c;
        P::lemma_channels();
        lemma_row_bounds(h, w, c, h);
        assert forall|j: int|
            0 <= j < self.bytes().len() implies self.bytes()[j] == other.bytes()[j] by {
            assert(0 < h && 0 < w) by (nonlinear_arith)
                requires
                    0 < h * w * c,
                    0 <= h,
                    0 <= w,
            ;
            assert(0 < rs) by (nonlinear_arith)
                requires
                    0 < w,
                    0 < c,
                    rs == w * c,
            ;
            let y = j / rs;
            let rem = j % rs;
            let x = rem / c;
            let k = rem % c;
            lemma_fundamental_div_mod(j, rs);
            lemma_mod_division_less_than_divisor(j, rs);
            assert(rs * h == h * rs) by (nonlinear_arith);
            lemma_multiply_divide_lt(j, rs, h);
            lemma_fundamental_div_mod(rem, c);
            lemma_mod_division_less_than_divisor(rem, c);
            assert(c * w == w * c) by (nonlinear_arith);
            lemma_multiply_divide_lt(rem, c, w);
            assert(j == y * rs + x * c + k) by (nonlinear_arith)
                requires
                    j == rs * y + rem,
                    rem == c * x + k,
            ;
            self.lemma_pixel_index_bounds(x, y);
            let pi = self.pixel_index(x, y);
            let run_a = self.bytes().subrange(pi, pi + c);
            let run_b = other.bytes().subrange(pi, pi + c);
            P::lemma_enc_of_dec(run_a);
            P::lemma_enc_of_dec(run_b);
            assert(self.pixel_at(x, y) == other.pixel_at(x, y));
            assert(other.pixel_index(x, y) == pi);
            assert(P::dec(run_a) == self.pixel_at(x, y));
            assert(P::dec(run_b) == other.pixel_at(x, y));
            assert(run_a == run_b);
            assert(self.bytes()[j] == run_a[k]);
            assert(other.bytes()[j] == run_b[k]);
        }
        assert(self.bytes() =~= other.bytes());
    }
}

/// Converting a Gray buffer to Gray is the identity: the contract of
/// `convert` forces the result to be byte-identical to the source.
pub proof fn lemma_convert_identity_gray(a: Image<Gray>, b: Image<Gray>)
    requires
        a.wf(),
        b.wf(),
        b.spec_height() == a.spec_height(),
        b.spec_width() == a.spec_width(),
        forall|y: int, x: int|
            0 <= y < a.spec_height() && 0 <= x < a.spec_width() ==> #[trigger] b.pixel_at(x, y)
                == <Gray as PixelConvert<Gray>>::convert_spec(a.pixel_at(x, y)),
    ensures
        b.bytes() == a.bytes(),
{
    assert forall|y: int, x: int|
        0 <= y < a.spec_height() && 0 <= x < a.spec_width() implies #[trigger] a.pixel_at(x, y)
            == b.pixel_at(x, y) by {
        assert(b.pixel_at(x, y) == <Gray as PixelConvert<Gray>>::convert_spec(a.pixel_at(x, y)));
    }
    a.lemma_bytes_from_pixels(b);
}

/// Converting a GrayA buffer to GrayA is the identity: the contract of
/// `convert` forces the result to be byte-identical to the source.
pub proof fn lemma_convert_identity_graya(a: Image<GrayA>, b: Image<GrayA>)
    requires
        a.wf(),
        b.wf(),
        b.spec_height() == a.spec_height(),
        b.spec_width() == a.spec_width(),
        forall|y: int, x: int|
            0 <= y < a.spec_height() && 0 <= x < a.spec_width() ==> #[trigger] b.pixel_at(x, y)
                == <GrayA as PixelConvert<GrayA>>::convert_spec(a.pixel_at(x, y)),
    ensures
        b.bytes() == a.bytes(),
{
    assert forall|y: int, x: int|
        0 <= y < a.spec_height() && 0 <= x < a.spec_width() implies #[trigger] a.pixel_at(x, y)
            == b.pixel_at(x, y) by {
        assert(b.pixel_at(x, y) == <GrayA as PixelConvert<GrayA>>::convert_spec(
            a.pixel_at(x, y),
        ));
    }
    a.lemma_bytes_from_pixels(b);
}

/// Converting an RGB buffer to RGB is the identity: the contract of
/// `convert` forces the result to be byte-identical to the source.
pub proof fn lemma_convert_identity_rgb(a: Image<RGB>, b: Image<RGB>)
    requires
        a.wf(),
        b.wf(),
        b.spec_height() == a.spec_height(),
        b.spec_width() == a.spec_width(),
        forall|y: int, x: int|
            0 <= y < a.spec_height() && 0 <= x < a.spec_width() ==> #[trigger] b.pixel_at(x, y)
                == <RGB as PixelConvert<RGB>>::convert_spec(a.pixel_at(x, y)),
    ensures
        b.bytes() == a.bytes(),
{
    assert forall|y: int, x: int|
        0 <= y < a.spec_height() && 0 <= x < a.spec_width() implies #[trigger] a.pixel_at(x, y)
            == b.pixel_at(x, y) by {
        assert(b.pixel_at(x, y) == <RGB as PixelConvert<RGB>>::convert_spec(a.pixel_at(x, y)));
    }
    a.lemma_bytes_from_pixels(b);
}

/// Converting an RGBA buffer to RGBA is the identity: the contract of
/// `convert` forces the result to be byte-identical to the source.
pub proof fn lemma_convert_identity_rgba(a: Image<RGBA>, b: Image<RGBA>)
    requires
        a.wf(),
        b.wf(),
        b.spec_height() == a.spec_height(),
        b.spec_width() == a.spec_width(),
        forall|y: int, x: int|
            0 <= y < a.spec_height() && 0 <= x < a.spec_width() ==> #[trigger] b.pixel_at(x, y)
                == <RGBA as PixelConvert<RGBA>>::convert_spec(a.pixel_at(x, y)),
    ensures
        b.bytes() == a.bytes(),
{
    assert forall|y: int, x: int|
        0 <= y < a.spec_height() && 0 <= x < a.spec_width() implies #[trigger] a.pixel_at(x, y)
            == b.pixel_at(x, y) by {
        assert(b.pixel_at(x, y) == <RGBA as PixelConvert<RGBA>>::convert_spec(a.pixel_at(x, y)));
    }
    a.lemma_bytes_from_pixels(b);
}

impl<P: Pixel> Clone for Image<P> {
    /// Allocates fresh storage holding the same bytes.
    fn clone(&self) -> (res: Self)
        ensures
            res.spec_height() == self.spec_height(),
            res.spec_width() == self.spec_width(),
            res.bytes() == self.bytes(),
    {
        Image {
            height: self.height,
            width: self.width,
            data: slice_to_vec(self.data.as_slice()),
            phantom: PhantomData,
        }
    }
}

/// The byte run of the pixel at column `x` of row `y` inside a
/// row-major grid byte sequence whose rows hold `w` pixels of `c` bytes.
spec fn grid_run(s: Seq<u8>, w: int, c: int, x: int, y: int) -> Seq<u8> {
    s.subrange((y * w + x) * c, (y * w + x) * c + c)
}

/// Appending one pixel's byte run to a partially built grid extends its
/// length by one pixel and leaves every earlier pixel's run unchanged.
proof fn lemma_grid_append(before: Seq<u8>, after: Seq<u8>, w: int, c: int, x: int, y: int)
    requires
        1 <= c,
        0 <= x < w,
        0 <= y,
        before.len() == (y * w + x) * c,
        after.len() == before.len() + c,
        after.subrange(0, before.len() as int) == before,
    ensures
        after.len() == (y * w + x + 1) * c,
        x + 1 == w ==> after.len() == (y + 1) * w * c,
        forall|yy: int, xx: int|
            ((0 <= yy < y && 0 <= xx < w) || (yy == y && 0 <= xx < x))
                ==> grid_run(after, w, c, xx, yy) == grid_run(before, w, c, xx, yy),
        grid_run(after, w, c, x, y) == after.subrange(
            before.len() as int,
            after.len() as int,
        ),
{
    assert((y * w + x) * c + c == (y * w + x + 1) * c) by (nonlinear_arith);
    assert((y * w + w) * c == (y + 1) * w * c) by (nonlinear_arith);
    assert forall|i: int| 0 <= i < before.len() implies after[i] == before[i] by {
        assert(before[i] == after.subrange(0, before.len() as int)[i]);
    }
    assert forall|yy: int, xx: int|
        ((0 <= yy < y && 0 <= xx < w) || (yy == y && 0 <= xx < x))
            implies grid_run(after, w, c, xx, yy) == grid_run(before, w, c, xx, yy) by {
        assert(yy * w + xx < y * w + x) by (nonlinear_arith)
            requires
                0 <= x,
                0 <= xx < w,
                (0 <= yy < y) || (yy == y && 0 <= xx < x),
        ;
        assert(0 <= (yy * w + xx) * c) by (nonlinear_arith)
            requires
                0 <= yy,
                0 <= xx,
                0 <= w,
                1 <= c,
        ;
        assert((yy * w + xx + 1) * c <= (y * w + x) * c) by (nonlinear_arith)
            requires
                yy * w + xx < y * w + x,
                1 <= c,
        ;
        assert((yy * w + xx) * c + c == (yy * w + xx + 1) * c) by (nonlinear_arith);
        assert(grid_run(after, w, c, xx, yy) =~= grid_run(before, w, c, xx, yy));
    }
}

/// Appending one whole row of `w` pixels of `c` bytes to a partially
/// built grid extends it by one row and leaves every earlier pixel's
/// run unchanged; the new row's runs are the slices of the appended
/// chunk.
proof fn lemma_grid_append_row(before: Seq<u8>, after: Seq<u8>, w: int, c: int, y: int)
    requires
        1 <= c,
        1 <= w,
        0 <= y,
        before.len() == y * (w * c),
        after.len() == before.len() + w * c,
        after.subrange(0, before.len() as int) == before,
    ensures
        after.len() == (y + 1) * (w * c),
        forall|yy: int, xx: int|
            0 <= yy < y && 0 <= xx < w ==> grid_run(after, w, c, xx, yy) == grid_run(
                before,
                w,
                c,
                xx,
                yy,
            ),
        forall|xx: int|
            0 <= xx < w ==> grid_run(after, w, c, xx, y) == after.subrange(
                before.len() + xx * c,
                before.len() + xx * c + c,
            ),
{
    assert(y * (w * c) + w * c == (y + 1) * (w * c)) by (nonlinear_arith);
    assert forall|i: int| 0 <= i < before.len() implies after[i] == before[i] by {
        assert(before[i] == after.subrange(0, before.len() as int)[i]);
    }
    assert forall|yy: int, xx: int|
        0 <= yy < y && 0 <= xx < w implies grid_run(after, w, c, xx, yy) == grid_run(
        before,
        w,
        c,
        xx,
        yy,
    ) by {
        assert(0 <= (yy * w + xx) * c && (yy * w + xx) * c + c <= y * (w * c))
            by (nonlinear_arith)
            requires
                1 <= c,
                1 <= w,
                0 <= yy < y,
                0 <= xx < w,
        ;
        assert(grid_run(after, w, c, xx, yy) =~= grid_run(before, w, c, xx, yy));
    }
    assert forall|xx: int|
        0 <= xx < w implies grid_run(after, w, c, xx, y) == after.subrange(
        before.len() + xx * c,
        before.len() + xx * c + c,
    ) by {
        assert((y * w + xx) * c == y * (w * c) + xx * c && 0 <= xx * c && xx * c + c <= w * c)
            by (nonlinear_arith)
            requires
                1 <= c,
                0 <= xx < w,
                0 <= y,
        ;
        assert(grid_run(after, w, c, xx, y) =~= after.subrange(
            before.len() + xx * c,
            before.len() + xx * c + c,
        ));
    }
}

/// Row-prefix arithmetic for vertical cropping: the first `k` of `h`
/// rows span a prefix of the byte run, and the remaining rows span the
/// rest.
proof fn lemma_row_bounds(h: int, w: int, c: int, k: int)
    by (nonlinear_arith)
    requires
        1 <= c,
        0 <= w,
        0 <= k <= h,
    ensures
        0 <= k * (w * c) <= h * w * c,
        h * (w * c) == h * w * c,
        (h - k) * w * c == h * w * c - k * (w * c),
        (h - k) * (w * c) == (h - k) * w * c,
        k * (w * c) == k * w * c,
{
}

/// Closing one grid row: `y` full rows plus one more full row are
/// `y + 1` full rows.
proof fn lemma_grid_row_arith(y: int, w: int, c: int)
    by (nonlinear_arith)
    ensures
        (y * w + w) * c == (y + 1) * w * c,
{
}

/// Grid arithmetic: a pixel's byte run lies inside the grid, and the
/// offset forms `y * row_size + x * channels` and
/// `(y * width + x) * channels` agree.
proof fn lemma_grid_arith(h: int, w: int, c: int, x: int, y: int)
    by (nonlinear_arith)
    requires
        1 <= c,
        0 <= x < w,
        0 <= y < h,
    ensures
        0 <= y * (w * c),
        0 <= x * c,
        y * (w * c) + x * c + c <= h * w * c,
        y * (w * c) + x * c == (y * w + x) * c,
        h * w * c == h * (w * c),
{
}

} // verus!
