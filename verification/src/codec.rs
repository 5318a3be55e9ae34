//! The codec boundary: assembling a buffer from already-decoded
//! scanlines and handing scanlines back for file encoding. The file
//! codec itself (signature checks, row decode and encode, header
//! fields) lives outside the library; it supplies and consumes plain
//! byte rows.

use crate::image::Image;
use crate::pixel::{Pixel, PixelConvert, RGB, RGBA};
use vstd::prelude::*;
use vstd::slice::{slice_subrange, slice_to_vec};

verus! {

/// Assembles a buffer from decoded scanlines: one byte run per row,
/// each exactly `width * channels` bytes, top row first.
pub fn image_from_rows<P: Pixel>(width: usize, rows: &Vec<Vec<u8>>) -> (img: Image<P>)
    requires
        forall|i: int|
            0 <= i < rows@.len() ==> #[trigger] rows@[i]@.len() == width * P::channels(),
        width * P::channels() <= usize::MAX,
        rows@.len() * (width * P::channels()) <= usize::MAX,
    ensures
        img.wf(),
        img.spec_height() == rows@.len(),
        img.spec_width() == width,
        forall|i: int| 0 <= i < rows@.len() ==> #[trigger] img.row(i) == rows@[i]@,
{
    let ghost h = rows@.len() as int;
    let ghost w = width as int;
    let ghost c = P::channels();
    let ghost rs = w * c;
    proof {
        P::lemma_channels();
        assert(0 * rs == 0 && 0 <= rs) by (nonlinear_arith)
            requires
                rs == w * c,
                0 <= w,
                1 <= c,
        ;
    }
    let height = rows.len();
    let mut data: Vec<u8> = Vec::new();
    let mut i: usize = 0;
    while i < height
        invariant
            forall|j: int| 0 <= j < rows@.len() ==> #[trigger] rows@[j]@.len() == rs,
            h == rows@.len(),
            height == h,
            w == width as int,
            c == P::channels(),
            1 <= c,
            rs == w * c,
            0 <= rs <= usize::MAX,
            h * rs <= usize::MAX,
            i <= h,
            data@.len() == i * rs,
            forall|j: int|
                0 <= j < i ==> #[trigger] data@.subrange(j * rs, (j + 1) * rs) == rows@[j]@,
        decreases h - i,
    {
        let ghost before = data@;
        let mut chunk = slice_to_vec(rows[i].as_slice());
        data.append(&mut chunk);
        proof {
            assert(rows@[i as int]@.len() == rs);
            assert(data@ == before + rows@[i as int]@);
            assert(i * rs + rs == (i + 1) * rs) by (nonlinear_arith);
            assert forall|j: int|
                0 <= j < i + 1 implies #[trigger] data@.subrange(j * rs, (j + 1) * rs)
                    == rows@[j]@ by {
                assert(0 <= j * rs && (j + 1) * rs <= i * rs + rs) by (nonlinear_arith)
                    requires
                        0 <= j <= i,
                        0 <= rs,
                ;
                if j < i {
                    assert((j + 1) * rs <= i * rs) by (nonlinear_arith)
                        requires
                            0 <= j < i,
                            0 <= rs,
                    ;
                    assert(j * rs + rs == (j + 1) * rs) by (nonlinear_arith);
                    assert(forall|n: int| 0 <= n < before.len() ==> data@[n] == before[n]);
                    assert(before.subrange(j * rs, (j + 1) * rs) == rows@[j]@);
                    assert(data@.subrange(j * rs, (j + 1) * rs) =~= before.subrange(
                        j * rs,
                        (j + 1) * rs,
                    ));
                } else {
                    assert(data@.subrange(j * rs, (j + 1) * rs) =~= rows@[j]@);
                }
            }
        }
        i += 1;
    }
    proof {
        assert(h * rs == h * w * c && h * w * c == rows@.len() * (w * c)) by (nonlinear_arith)
            requires
                rs == w * c,
                h == rows@.len(),
        ;
    }
    let img = Image::<P>::new(height, width, data);
    proof {
        assert(img.bytes() =~= data@);
        assert forall|j: int| 0 <= j < rows@.len() implies #[trigger] img.row(j) == rows@[j]@ by {
            assert(data@.subrange(j * rs, (j + 1) * rs) == rows@[j]@);
        }
    }
    img
}

/// Hands a buffer back to the file codec as scanlines: one byte run
/// per row, top row first.
pub fn image_to_rows<P: Pixel>(img: &Image<P>) -> (rows: Vec<Vec<u8>>)
    requires
        img.wf(),
    ensures
        rows@.len() == img.spec_height(),
        forall|i: int| 0 <= i < rows@.len() ==> #[trigger] rows@[i]@ == img.row(i),
{
    let ghost h = img.spec_height();
    let ghost w = img.spec_width();
    let ghost c = P::channels();
    let ghost rs = w * c;
    proof {
        P::lemma_channels();
    }
    let height = img.height();
    let row_size = img.row_size();
    let mut rows: Vec<Vec<u8>> = Vec::new();
    let mut i: usize = 0;
    while i < height
        invariant
            img.wf(),
            h == img.spec_height(),
            w == img.spec_width(),
            c == P::channels(),
            1 <= c,
            rs == w * c,
            height == h,
            row_size as int == rs,
            i <= h,
            rows@.len() == i,
            forall|j: int| 0 <= j < i ==> #[trigger] rows@[j]@ == img.row(j),
        decreases h - i,
    {
        proof {
            assert(0 <= i * rs && i * rs + rs <= h * rs && h * rs == h * w * c)
                by (nonlinear_arith)
                requires
                    0 <= i < h,
                    0 <= rs,
                    rs == w * c,
            ;
        }
        let start = i * row_size;
        let end = start + row_size;
        let row = slice_to_vec(slice_subrange(img.data(), start, end));
        rows.push(row);
        proof {
            assert(i * rs + rs == (i + 1) * rs) by (nonlinear_arith);
            assert(rows@[i as int]@ =~= img.row(i as int));
        }
        i += 1;
    }
    rows
}

/// Assembles the scanlines the file codec decoded into an RGBA buffer:
/// rows carry RGBA pixels when the source had an alpha channel, RGB
/// pixels otherwise, in which case every pixel is converted and its
/// alpha defaults to fully opaque.
pub fn assemble_rgba(width: usize, has_alpha: bool, rows: &Vec<Vec<u8>>) -> (img: Image<RGBA>)
    requires
        forall|i: int|
            0 <= i < rows@.len() ==> #[trigger] rows@[i]@.len() == width * (
            if has_alpha {
                4int
            } else {
                3int
            }),
        width * 4 <= usize::MAX,
        rows@.len() * (width * 4) <= usize::MAX,
    ensures
        img.wf(),
        img.spec_height() == rows@.len(),
        img.spec_width() == width,
        forall|y: int, x: int|
            0 <= y < rows@.len() && 0 <= x < width ==> #[trigger] img.pixel_at(x, y) == (
            if has_alpha {
                RGBA::dec(rows@[y]@.subrange(4 * x, 4 * x + 4))
            } else {
                <RGB as PixelConvert<RGBA>>::convert_spec(
                    RGB::dec(rows@[y]@.subrange(3 * x, 3 * x + 3)),
                )
            }),
{
    let ghost h = rows@.len() as int;
    let ghost w = width as int;
    if has_alpha {
        let img = image_from_rows::<RGBA>(width, rows);
        proof {
            assert forall|y: int, x: int|
                0 <= y < h && 0 <= x < w implies #[trigger] img.pixel_at(x, y) == RGBA::dec(
                rows@[y]@.subrange(4 * x, 4 * x + 4),
            ) by {
                img.lemma_pixel_from_row(x, y);
                assert(img.row(y) == rows@[y]@);
            }
        }
        img
    } else {
        proof {
            assert(w * 3 <= w * 4 && h * (w * 3) <= h * (w * 4) && h * w * 3 == h * (w * 3)
                && h * w * 4 == h * (w * 4)) by (nonlinear_arith)
                requires
                    0 <= w,
                    0 <= h,
            ;
        }
        let base: Image<RGB> = image_from_rows::<RGB>(width, rows);
        let img: Image<RGBA> = base.convert();
        proof {
            assert forall|y: int, x: int|
                0 <= y < h && 0 <= x < w implies #[trigger] img.pixel_at(x, y) == <RGB as
                PixelConvert<RGBA>>::convert_spec(
                RGB::dec(rows@[y]@.subrange(3 * x, 3 * x + 3)),
            ) by {
                base.lemma_pixel_from_row(x, y);
                assert(base.row(y) == rows@[y]@);
                assert(img.pixel_at(x, y) == <RGB as PixelConvert<RGBA>>::convert_spec(
                    base.pixel_at(x, y),
                ));
            }
        }
        img
    }
}

} // verus!
