//! Image geometry and pixel layout: the true size behind a thumbnail, the
//! crop region to cut from a decoded image, the size an overlay is drawn
//! against, and packing pixel rows into tightly packed RGB.

use vstd::prelude::*;
use crate::project::CropBox;

verus! {

/// `image::DynamicImage`, the image type colour adjustments work on.
#[verifier::external_type_specification]
#[verifier::external_body]
pub struct ExDynamicImage(image::DynamicImage);

pub open spec fn abs(v: int) -> int {
    if v < 0 {
        -v
    } else {
        v
    }
}

/// The full-resolution size of an image whose header says `file` and whose
/// thumbnail, after the EXIF orientation was applied, is `tw` x `th`: the
/// header size, swapped when the thumbnail's aspect matches it turned on its
/// side more closely than upright. Unknown (zero) sizes give the header size.
pub open spec fn exif_dims(file: (u32, u32), tw: i32, th: i32) -> (u32, u32) {
    let (fw, fh) = file;
    if fw == 0 || fh == 0 || tw == 0 || th == 0 {
        file
    } else if abs(tw * fh - th * fw) <= abs(tw * fw - th * fh) {
        (fw, fh)
    } else {
        (fh, fw)
    }
}

/// Turning the question on its side turns the answer: with the header
/// size and the thumbnail size both swapped, the corrected size is swapped
/// too. A header that looks upright next to an upright thumbnail thus
/// comes out turned next to a thumbnail on its side, and the other way round.
pub proof fn lemma_exif_dims_symmetric(fw: u32, fh: u32, tw: i32, th: i32)
    ensures
        exif_dims((fh, fw), th, tw) == (exif_dims((fw, fh), tw, th).1, exif_dims((fw, fh), tw, th).0),
{
    assert(th * fw - tw * fh == -(tw * fh - th * fw)) by (nonlinear_arith);
    assert(th * fh - tw * fw == -(tw * fw - th * fh)) by (nonlinear_arith);
}

fn abs_i128(v: i128) -> (r: i128)
    requires
        v > i128::MIN,
    ensures
        r == abs(v as int),
{
    if v < 0 {
        -v
    } else {
        v
    }
}

/// The full-resolution image size, corrected for EXIF orientation (see
/// [`exif_dims`]).
pub fn exif_corrected_dims(file_dims: (u32, u32), thumb_w: i32, thumb_h: i32) -> (r: (u32, u32))
    ensures
        r == exif_dims(file_dims, thumb_w, thumb_h),
{
    let (fw, fh) = file_dims;
    if fw == 0 || fh == 0 || thumb_w == 0 || thumb_h == 0 {
        return file_dims;
    }
    let (fw_l, fh_l) = (fw as i128, fh as i128);
    let (tw, th) = (thumb_w as i128, thumb_h as i128);
    proof {
        assert(-0x8000_0000 * 0xffff_ffff <= tw * fh_l <= 0x8000_0000 * 0xffff_ffff) by (nonlinear_arith)
            requires
                -0x8000_0000 <= tw <= 0x7fff_ffff,
                0 <= fh_l <= 0xffff_ffff,
        ;
        assert(-0x8000_0000 * 0xffff_ffff <= th * fw_l <= 0x8000_0000 * 0xffff_ffff) by (nonlinear_arith)
            requires
                -0x8000_0000 <= th <= 0x7fff_ffff,
                0 <= fw_l <= 0xffff_ffff,
        ;
        assert(-0x8000_0000 * 0xffff_ffff <= tw * fw_l <= 0x8000_0000 * 0xffff_ffff) by (nonlinear_arith)
            requires
                -0x8000_0000 <= tw <= 0x7fff_ffff,
                0 <= fw_l <= 0xffff_ffff,
        ;
        assert(-0x8000_0000 * 0xffff_ffff <= th * fh_l <= 0x8000_0000 * 0xffff_ffff) by (nonlinear_arith)
            requires
                -0x8000_0000 <= th <= 0x7fff_ffff,
                0 <= fh_l <= 0xffff_ffff,
        ;
    }
    let upright = abs_i128(tw * fh_l - th * fw_l);
    let turned = abs_i128(tw * fw_l - th * fh_l);
    if upright <= turned {
        (fw, fh)
    } else {
        (fh, fw)
    }
}

pub open spec fn fits_i32(v: int) -> bool {
    i32::MIN <= v <= i32::MAX
}

/// `v - 1`, staying at `i32::MIN`.
pub open spec fn minus_one_saturating(v: i32) -> int {
    if v == i32::MIN {
        v as int
    } else {
        v - 1
    }
}

pub open spec fn min_int(a: int, b: int) -> int {
    if a <= b {
        a
    } else {
        b
    }
}

pub open spec fn max_int(a: int, b: int) -> int {
    if a >= b {
        a
    } else {
        b
    }
}

/// The region `(x, y, w, h)` cut from a decoded image of `pw` x `ph` pixels
/// for crop `c`: the origin is kept inside the image and the size is cut
/// down to what remains, but never below one pixel.
pub open spec fn crop_region_of(c: CropBox, pw: i32, ph: i32) -> (int, int, int, int) {
    let x = min_int((c.x as i32) as int, minus_one_saturating(pw));
    let y = min_int((c.y as i32) as int, minus_one_saturating(ph));
    let w = max_int(min_int((c.w as i32) as int, pw - x), 1);
    let h = max_int(min_int((c.h as i32) as int, ph - y), 1);
    (x, y, w, h)
}

/// The arithmetic of [`crop_region_of`] stays within `i32`.
pub open spec fn crop_region_fits(c: CropBox, pw: i32, ph: i32) -> bool {
    &&& fits_i32(pw - min_int((c.x as i32) as int, minus_one_saturating(pw)))
    &&& fits_i32(ph - min_int((c.y as i32) as int, minus_one_saturating(ph)))
}

fn minus_one_sat(v: i32) -> (r: i32)
    ensures
        r == minus_one_saturating(v),
{
    if v == i32::MIN {
        v
    } else {
        v - 1
    }
}

/// The region of a decoded `pw` x `ph` image that crop `c` selects for the
/// colour preview.
pub fn crop_region(c: CropBox, pw: i32, ph: i32) -> (r: (i32, i32, i32, i32))
    requires
        crop_region_fits(c, pw, ph),
    ensures
        (r.0 as int, r.1 as int, r.2 as int, r.3 as int) == crop_region_of(c, pw, ph),
{
    let cx = c.x as i32;
    let cy = c.y as i32;
    let mx = minus_one_sat(pw);
    let my = minus_one_sat(ph);
    let x = if cx <= mx { cx } else { mx };
    let y = if cy <= my { cy } else { my };
    let cw = c.w as i32;
    let ch = c.h as i32;
    let rw = pw - x;
    let rh = ph - y;
    let w0 = if cw <= rw { cw } else { rw };
    let h0 = if ch <= rh { ch } else { rh };
    let w = if w0 >= 1 { w0 } else { 1 };
    let h = if h0 >= 1 { h0 } else { 1 };
    (x, y, w, h)
}

/// The image size a thumbnail's crop overlay is drawn against: the item's
/// base size (turned for rotations of 90 and 270 degrees) when known,
/// otherwise the extent of the crop itself (at least 1 x 1).
pub open spec fn overlay_dims_of(base_w: u32, base_h: u32, rotation: u16, c: CropBox) -> (int, int) {
    if base_w > 0 && base_h > 0 {
        if rotation % 360 == 90 || rotation % 360 == 270 {
            (base_h as int, base_w as int)
        } else {
            (base_w as int, base_h as int)
        }
    } else {
        (max_int(c.x + c.w, 1), max_int(c.y + c.h, 1))
    }
}

pub fn overlay_image_dims(base_w: u32, base_h: u32, rotation: u16, c: CropBox) -> (r: (u32, u32))
    requires
        c.x + c.w <= u32::MAX,
        c.y + c.h <= u32::MAX,
    ensures
        (r.0 as int, r.1 as int) == overlay_dims_of(base_w, base_h, rotation, c),
{
    if base_w > 0 && base_h > 0 {
        let q = rotation % 360;
        if q == 90 || q == 270 {
            (base_h, base_w)
        } else {
            (base_w, base_h)
        }
    } else {
        let ex = c.x + c.w;
        let ey = c.y + c.h;
        (if ex >= 1 { ex } else { 1 }, if ey >= 1 { ey } else { 1 })
    }
}

/// The first three bytes of each of the first `cols` pixels of a row that
/// starts at `base`, pixels being `ch` bytes apart.
pub open spec fn packed_row(src: Seq<u8>, base: int, ch: int, cols: nat) -> Seq<u8>
    decreases cols,
{
    if cols == 0 {
        Seq::empty()
    } else {
        let p = base + (cols - 1) * ch;
        packed_row(src, base, ch, (cols - 1) as nat) + seq![src[p], src[p + 1], src[p + 2]]
    }
}

/// The first `rows` rows of `width` pixels, rows being `stride` bytes apart,
/// as tightly packed RGB.
pub open spec fn packed_rows(src: Seq<u8>, width: nat, stride: int, ch: int, rows: nat) -> Seq<u8>
    decreases rows,
{
    if rows == 0 {
        Seq::empty()
    } else {
        packed_rows(src, width, stride, ch, (rows - 1) as nat) + packed_row(src, (rows - 1) * stride, ch, width)
    }
}

proof fn lemma_packed_row_len(src: Seq<u8>, base: int, ch: int, cols: nat)
    ensures
        packed_row(src, base, ch, cols).len() == 3 * cols,
    decreases cols,
{
    if cols > 0 {
        lemma_packed_row_len(src, base, ch, (cols - 1) as nat);
    }
}

proof fn lemma_packed_rows_len(src: Seq<u8>, width: nat, stride: int, ch: int, rows: nat)
    ensures
        packed_rows(src, width, stride, ch, rows).len() == 3 * width * rows,
    decreases rows,
{
    if rows > 0 {
        lemma_packed_rows_len(src, width, stride, ch, (rows - 1) as nat);
        lemma_packed_row_len(src, (rows - 1) * stride, ch, width);
        assert(3 * width * (rows - 1) + 3 * width == 3 * width * rows) by (nonlinear_arith);
    } else {
        assert(3 * width * rows == 0) by (nonlinear_arith)
            requires
                rows == 0,
        ;
    }
}

/// The number of bytes per pixel of a pixel buffer.
pub open spec fn channels(has_alpha: bool) -> int {
    if has_alpha {
        4
    } else {
        3
    }
}

/// The reads of [`pack_rgb`] stay inside `src` and its sizes fit in `usize`.
pub open spec fn pixel_layout_ok(src_len: int, width: u32, height: u32, stride: usize, has_alpha: bool) -> bool {
    &&& 3 * width <= usize::MAX
    &&& 3 * width * height <= usize::MAX
    &&& width > 0 && height > 0 ==> (height - 1) * stride + (width - 1) * channels(has_alpha) + 3 <= src_len
}

/// Repack a pixel buffer (`stride` bytes per row, 3 or 4 bytes per pixel)
/// into tightly packed RGB, dropping any alpha byte.
pub fn pack_rgb(src: &[u8], width: u32, height: u32, stride: usize, has_alpha: bool) -> (out: Vec<u8>)
    requires
        pixel_layout_ok(src@.len() as int, width, height, stride, has_alpha),
    ensures
        out@ == packed_rows(src@, width as nat, stride as int, channels(has_alpha), height as nat),
        out@.len() == 3 * width * height,
{
    let ch: usize = if has_alpha { 4 } else { 3 };
    let w = width as usize;
    let h = height as usize;
    let n = src.len();
    let mut out: Vec<u8> = Vec::new();
    for row in 0..h
        invariant
            n == src@.len(),
            w == width,
            h == height,
            ch == channels(has_alpha),
            pixel_layout_ok(src@.len() as int, width, height, stride, has_alpha),
            out@ == packed_rows(src@, width as nat, stride as int, ch as int, row as nat),
    {
        for col in 0..w
            invariant
                n == src@.len(),
                w == width,
                h == height,
                row < h,
                ch == channels(has_alpha),
                pixel_layout_ok(src@.len() as int, width, height, stride, has_alpha),
                out@ == packed_rows(src@, width as nat, stride as int, ch as int, row as nat) + packed_row(
                    src@,
                    row * stride,
                    ch as int,
                    col as nat,
                ),
        {
            proof {
                assert(row * stride <= (h - 1) * stride) by (nonlinear_arith)
                    requires
                        row < h,
                ;
                assert(0 <= row * stride) by (nonlinear_arith)
                    requires
                        row >= 0,
                ;
                assert(col * ch <= (w - 1) * ch) by (nonlinear_arith)
                    requires
                        col < w,
                ;
                assert(0 <= col * ch) by (nonlinear_arith)
                    requires
                        col >= 0,
                        ch > 0,
                ;
                assert(0 <= (w - 1) * ch) by (nonlinear_arith)
                    requires
                        col < w,
                        ch > 0,
                ;
            }
            let si = row * stride + col * ch;
            out.push(src[si]);
            out.push(src[si + 1]);
            out.push(src[si + 2]);
        }
        proof {
            assert(out@ =~= packed_rows(src@, width as nat, stride as int, ch as int, (row + 1) as nat));
        }
    }
    proof {
        lemma_packed_rows_len(src@, width as nat, stride as int, ch as int, height as nat);
    }
    out
}

/// The RGB image of `width` x `height` whose pixels are the tightly packed
/// bytes `pixels`, row by row.
pub uninterp spec fn rgb_image_of(width: u32, height: u32, pixels: Seq<u8>) -> image::DynamicImage;

/// `image::RgbImage::from_raw`, wrapped as a `DynamicImage`: the image of
/// `width` x `height` over the packed RGB bytes `pixels`, or `None` when
/// the buffer is shorter than `3 * width * height` bytes (or that size, or
/// `3 * width` on the way, does not fit in `usize`).
#[verifier::external_body]
fn rgb_image_from_raw(width: u32, height: u32, pixels: Vec<u8>) -> (r: Option<image::DynamicImage>)
    ensures
        r is Some <==> (3 * width <= usize::MAX && 3 * width * height <= usize::MAX && 3 * width * height
            <= pixels@.len()),
        r is Some ==> r->0 == rgb_image_of(width, height, pixels@),
{
    image::RgbImage::from_raw(width, height, pixels).map(image::DynamicImage::ImageRgb8)
}

/// The pixels of a decoded buffer as an RGB image for colour adjustment:
/// the image over the bytes [`pack_rgb`] gives (any alpha byte dropped).
pub fn pixbuf_to_dynamic_image(src: &[u8], width: u32, height: u32, stride: usize, has_alpha: bool) -> (r:
    image::DynamicImage)
    requires
        pixel_layout_ok(src@.len() as int, width, height, stride, has_alpha),
    ensures
        r == rgb_image_of(
            width,
            height,
            packed_rows(src@, width as nat, stride as int, channels(has_alpha), height as nat),
        ),
{
    let pixels = pack_rgb(src, width, height, stride, has_alpha);
    let img = rgb_image_from_raw(width, height, pixels);
    img.unwrap()
}

} // verus!
