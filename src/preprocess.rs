//! Turning a decoded image into the raw buffer an output shows: crop to the
//! output's aspect ratio, resize to the output's size, and reorder each pixel
//! from RGBA to the compositor's BGRA.
use crate::kernel::frame_len;
use fast_image_resize::images::Image;
use fast_image_resize::{PixelType, ResizeOptions, Resizer};
use gcd::Gcd;
use image::imageops::{self, FilterType};
use image::RgbaImage;
use vstd::arithmetic::div_mod::{lemma_fundamental_div_mod, lemma_fundamental_div_mod_converse};
use vstd::prelude::*;

verus! {

/// The greatest common divisor, by Euclid's rule.
pub open spec fn gcd(a: nat, b: nat) -> nat
    decreases b,
{
    if b == 0 {
        a
    } else {
        gcd(b, a % b)
    }
}

/// Relies on gcd's `Gcd::gcd` for `u32` (binary GCD): the greatest common divisor.
#[verifier::external_body]
fn gcd_u32(a: u32, b: u32) -> (r: u32)
    ensures
        r == gcd(a as nat, b as nat),
{
    a.gcd(b)
}

proof fn lemma_gcd_divides(a: nat, b: nat)
    ensures
        a > 0 || b > 0 ==> gcd(a, b) > 0,
        gcd(a, b) <= a || b > 0,
        exists|k: nat| a == #[trigger] (gcd(a, b) * k),
        exists|k: nat| b == #[trigger] (gcd(a, b) * k),
    decreases b,
{
    if b == 0 {
        assert(a == gcd(a, b) * 1);
        assert(b == gcd(a, b) * 0);
    } else {
        let r = a % b;
        lemma_gcd_divides(b, r);
        let g = gcd(b, r);
        let k1 = choose|k: nat| b == #[trigger] (g * k);
        let k2 = choose|k: nat| r == #[trigger] (g * k);
        lemma_fundamental_div_mod(a as int, b as int);
        let q = a / b;
        assert(a == g * (k1 * q + k2)) by (nonlinear_arith)
            requires
                a == b * q + r,
                b == g * k1,
                r == g * k2,
        ;
        assert(a == gcd(a, b) * ((k1 * q + k2) as nat));
        assert(b == gcd(a, b) * k1);
    }
}

/// An aspect ratio in lowest terms.
pub open spec fn ratio(w: nat, h: nat) -> (nat, nat) {
    (w / gcd(w, h), h / gcd(w, h))
}

/// The part of an `iw` by `ih` image to keep for an `mw` by `mh` output, as
/// `(left, top, width, height)`: the widest (or tallest) centred box of the
/// output's aspect ratio; the whole image when the ratios agree.
pub open spec fn crop_box(mw: nat, mh: nat, iw: nat, ih: nat) -> (nat, nat, nat, nat) {
    let (maw, mah) = ratio(mw, mh);
    let (iaw, iah) = ratio(iw, ih);
    let is_wide = iaw * mah >= maw * iah;
    let same = maw == iaw && mah == iah;
    if is_wide && !same {
        let width = (ih * maw) / mah;
        ((iw / 2 - width / 2) as nat, 0, width, ih)
    } else if !same {
        let height = (iw * mah) / maw;
        (0, (ih / 2 - height / 2) as nat, iw, height)
    } else {
        (0, 0, iw, ih)
    }
}

/// The crop box for an `img_width` by `img_height` image shown on a
/// `mon_width` by `mon_height` output; it lies inside the image.
pub fn get_crop_params(mon_width: u32, mon_height: u32, img_width: u32, img_height: u32) -> (r: (
    u32,
    u32,
    u32,
    u32,
))
    requires
        mon_width > 0,
        mon_height > 0,
        img_width > 0,
        img_height > 0,
    ensures
        (r.0 as nat, r.1 as nat, r.2 as nat, r.3 as nat) == crop_box(
            mon_width as nat,
            mon_height as nat,
            img_width as nat,
            img_height as nat,
        ),
        r.0 + r.2 <= img_width,
        r.1 + r.3 <= img_height,
{
    let g = gcd_u32(mon_width, mon_height);
    proof {
        lemma_gcd_divides(mon_width as nat, mon_height as nat);
    }
    let mon_ar_width = mon_width / g;
    let mon_ar_height = mon_height / g;
    let g2 = gcd_u32(img_width, img_height);
    proof {
        lemma_gcd_divides(img_width as nat, img_height as nat);
        let k1 = choose|k: nat| mon_width == #[trigger] (g * k);
        let k2 = choose|k: nat| mon_height == #[trigger] (g * k);
        let k3 = choose|k: nat| img_width == #[trigger] (g2 * k);
        let k4 = choose|k: nat| img_height == #[trigger] (g2 * k);
        lemma_exact_div(mon_width as nat, g as nat, k1);
        lemma_exact_div(mon_height as nat, g as nat, k2);
        lemma_exact_div(img_width as nat, g2 as nat, k3);
        lemma_exact_div(img_height as nat, g2 as nat, k4);
    }
    let img_ar_width = img_width / g2;
    let img_ar_height = img_height / g2;
    assert(img_ar_width as u64 * mon_ar_height as u64 <= u64::MAX && mon_ar_width as u64
        * img_ar_height as u64 <= u64::MAX) by (nonlinear_arith)
        requires
            img_ar_width <= u32::MAX,
            mon_ar_height <= u32::MAX,
            mon_ar_width <= u32::MAX,
            img_ar_height <= u32::MAX,
    ;
    let is_wide = img_ar_width as u64 * mon_ar_height as u64 >= mon_ar_width as u64
        * img_ar_height as u64;
    let ar_equals = mon_ar_width == img_ar_width && mon_ar_height == img_ar_height;
    proof {
        // Scaling both sides by the image's divisor keeps the comparison.
        assert(is_wide == (img_width * mon_ar_height >= mon_ar_width * img_height))
            by (nonlinear_arith)
            requires
                img_width == g2 * img_ar_width,
                img_height == g2 * img_ar_height,
                g2 > 0,
                is_wide == (img_ar_width * mon_ar_height >= mon_ar_width * img_ar_height),
        ;
        assert(mon_ar_width > 0 && mon_ar_height > 0) by (nonlinear_arith)
            requires
                mon_width == g * mon_ar_width,
                mon_height == g * mon_ar_height,
                mon_width > 0,
                mon_height > 0,
        ;
    }
    if is_wide && !ar_equals {
        assert(img_height as u64 * mon_ar_width as u64 <= u64::MAX) by (nonlinear_arith)
            requires
                img_height <= u32::MAX,
                mon_ar_width <= u32::MAX,
        ;
        let width64 = (img_height as u64 * mon_ar_width as u64) / mon_ar_height as u64;
        proof {
            assert(width64 <= img_width) by (nonlinear_arith)
                requires
                    img_width * mon_ar_height >= mon_ar_width * img_height,
                    width64 == (img_height * mon_ar_width) / (mon_ar_height as int),
                    mon_ar_height > 0,
            ;
        }
        let width = width64 as u32;
        let x = img_width / 2 - width / 2;
        (x, 0, width, img_height)
    } else if !ar_equals {
        assert(img_width as u64 * mon_ar_height as u64 <= u64::MAX) by (nonlinear_arith)
            requires
                img_width <= u32::MAX,
                mon_ar_height <= u32::MAX,
        ;
        let height64 = (img_width as u64 * mon_ar_height as u64) / mon_ar_width as u64;
        proof {
            assert(height64 <= img_height) by (nonlinear_arith)
                requires
                    img_width * mon_ar_height < mon_ar_width * img_height,
                    height64 == (img_width * mon_ar_height) / (mon_ar_width as int),
                    mon_ar_width > 0,
            ;
        }
        let height = height64 as u32;
        let y = img_height / 2 - height / 2;
        (0, y, img_width, height)
    } else {
        (0, 0, img_width, img_height)
    }
}

proof fn lemma_exact_div(a: nat, g: nat, k: nat)
    requires
        a == g * k,
        g > 0,
    ensures
        a / g == k,
{
    assert(a == k * g) by (nonlinear_arith)
        requires
            a == g * k,
    ;
    lemma_fundamental_div_mod_converse(a as int, g as int, k as int, 0);
}

/// Byte `j` after swapping the first and third byte of every whole pixel;
/// trailing bytes that make no whole pixel stay.
pub open spec fn swapped_byte(s: Seq<u8>, j: int) -> u8 {
    if j >= s.len() - s.len() % 4 {
        s[j]
    } else if j % 4 == 0 {
        s[j + 2]
    } else if j % 4 == 2 {
        s[j - 2]
    } else {
        s[j]
    }
}

/// RGBA pixels reordered as BGRA (and back: the swap is its own inverse).
pub open spec fn bgra_of(s: Seq<u8>) -> Seq<u8> {
    Seq::new(s.len(), |j: int| swapped_byte(s, j))
}

/// Reorders every pixel from `[R, G, B, A]` to `[B, G, R, A]` in place.
#[verifier::rlimit(40)]
pub fn rgba_to_bgra(buf: &mut Vec<u8>)
    ensures
        final(buf)@ == bgra_of(old(buf)@),
{
    let ghost orig = buf@;
    let len = buf.len();
    let whole = len - len % 4;
    let mut p: usize = 0;
    while p < whole
        invariant
            len == orig.len(),
            buf@.len() == len,
            whole == len - len % 4,
            p % 4 == 0,
            p <= whole,
            forall|j: int| 0 <= j < p ==> #[trigger] buf@[j] == swapped_byte(orig, j),
            forall|j: int| p <= j < len ==> #[trigger] buf@[j] == orig[j],
        decreases whole - p,
    {
        let r = buf[p];
        let b = buf[p + 2];
        buf.set(p, b);
        buf.set(p + 2, r);
        p = p + 4;
    }
    assert forall|j: int| 0 <= j < len implies #[trigger] buf@[j] == swapped_byte(orig, j) by {
        if j >= p {
            assert(j >= whole);
        }
    }
    assert(buf@ =~= bgra_of(orig));
}

/// What fast_image_resize's Lanczos3 convolution makes of the `cw` by `ch`
/// box at `(left, top)` of an `sw` by `sh` RGBA image, at `dw` by `dh`.
pub uninterp spec fn lanczos_resized(
    src: Seq<u8>,
    sw: u32,
    sh: u32,
    left: u32,
    top: u32,
    cw: u32,
    ch: u32,
    dw: u32,
    dh: u32,
) -> Seq<u8>;

/// Relies on fast_image_resize's `Resizer::resize` on 8-bit RGBA images,
/// with the default algorithm (convolution, Lanczos3) and the source cropped
/// to the `crop_width` by `crop_height` box at `(left, top)`. It fails only
/// when the source buffer is short or the box leaves the image; when it
/// succeeds, the destination it fills is `dst_width * dst_height` pixels of 4
/// bytes, a function of the arguments alone (the crate holds every CPU
/// extension to the same result).
#[verifier::external_body]
fn resize_rgba(
    src: Vec<u8>,
    src_width: u32,
    src_height: u32,
    left: u32,
    top: u32,
    crop_width: u32,
    crop_height: u32,
    dst_width: u32,
    dst_height: u32,
) -> (r: Option<Vec<u8>>)
    requires
        frame_len(dst_width as int, dst_height as int) <= isize::MAX,
    ensures
        (src@.len() == frame_len(src_width as int, src_height as int) && left + crop_width
            <= src_width && top + crop_height <= src_height) ==> r is Some,
        r matches Some(v) ==> v@ == lanczos_resized(
            src@,
            src_width,
            src_height,
            left,
            top,
            crop_width,
            crop_height,
            dst_width,
            dst_height,
        ),
        r matches Some(v) ==> v@.len() == frame_len(dst_width as int, dst_height as int),
{
    let src = Image::from_vec_u8(src_width, src_height, src, PixelType::U8x4).ok()?;
    let mut dst = Image::new(dst_width, dst_height, PixelType::U8x4);
    let options = ResizeOptions::new().crop(left.into(), top.into(), crop_width.into(), crop_height.into());
    Resizer::new().resize(&src, &mut dst, &options).ok()?;
    Some(dst.into_vec())
}

/// Why an image could not be turned into an output's buffer.
#[derive(Debug, PartialEq, Eq, Structural)]
pub enum PreprocessError {
    /// The image or the output has a side of zero pixels.
    EmptySize,
    /// The pixel buffer does not hold `width * height` RGBA pixels.
    BadLength,
    /// The output's buffer would be larger than memory can address.
    TooLarge,
    /// The resizer refused the image; with the box `get_crop_params` picks,
    /// this does not happen.
    ResizeFailed,
}

/// Turns an RGBA image into the BGRA buffer of a `mon_width` by `mon_height`
/// output: crops it to the output's aspect ratio, resizes the crop to the
/// output's size and reorders the pixels.
pub fn build_bgra_buffer(
    rgba: &Vec<u8>,
    img_width: u32,
    img_height: u32,
    mon_width: u32,
    mon_height: u32,
) -> (r: Result<Vec<u8>, PreprocessError>)
    ensures
        (img_width == 0 || img_height == 0 || mon_width == 0 || mon_height == 0) ==> r
            == Err::<Vec<u8>, PreprocessError>(PreprocessError::EmptySize),
        (img_width > 0 && img_height > 0 && mon_width > 0 && mon_height > 0 && rgba@.len()
            != frame_len(img_width as int, img_height as int)) ==> r == Err::<
            Vec<u8>,
            PreprocessError,
        >(PreprocessError::BadLength),
        (img_width > 0 && img_height > 0 && mon_width > 0 && mon_height > 0 && rgba@.len()
            == frame_len(img_width as int, img_height as int) && frame_len(
            mon_width as int,
            mon_height as int,
        ) > isize::MAX) ==> r == Err::<Vec<u8>, PreprocessError>(PreprocessError::TooLarge),
        (img_width > 0 && img_height > 0 && mon_width > 0 && mon_height > 0 && rgba@.len()
            == frame_len(img_width as int, img_height as int) && frame_len(
            mon_width as int,
            mon_height as int,
        ) <= isize::MAX) ==> r is Ok,
        r matches Ok(out) ==> out@.len() == frame_len(mon_width as int, mon_height as int),
        r matches Ok(out) ==> {
            let b = crop_box(mon_width as nat, mon_height as nat, img_width as nat, img_height as nat);
            out@ == bgra_of(
                lanczos_resized(
                    rgba@,
                    img_width,
                    img_height,
                    b.0 as u32,
                    b.1 as u32,
                    b.2 as u32,
                    b.3 as u32,
                    mon_width,
                    mon_height,
                ),
            )
        },
{
    if img_width == 0 || img_height == 0 || mon_width == 0 || mon_height == 0 {
        return Err(PreprocessError::EmptySize);
    }
    assert(img_width as int * img_height as int * 4 < 0x1_0000_0000_0000_0000_0000_0000)
        by (nonlinear_arith)
        requires
            img_width <= u32::MAX,
            img_height <= u32::MAX,
    ;
    assert(mon_width as int * mon_height as int * 4 < 0x1_0000_0000_0000_0000_0000_0000)
        by (nonlinear_arith)
        requires
            mon_width <= u32::MAX,
            mon_height <= u32::MAX,
    ;
    if rgba.len() as u128 != img_width as u128 * img_height as u128 * 4 {
        return Err(PreprocessError::BadLength);
    }
    if mon_width as u128 * mon_height as u128 * 4 > isize::MAX as u128 {
        return Err(PreprocessError::TooLarge);
    }
    let (left, top, crop_width, crop_height) = get_crop_params(
        mon_width,
        mon_height,
        img_width,
        img_height,
    );
    let src = rgba.clone();
    assert(src@ =~= rgba@);
    match resize_rgba(
        src,
        img_width,
        img_height,
        left,
        top,
        crop_width,
        crop_height,
        mon_width,
        mon_height,
    ) {
        None => Err(PreprocessError::ResizeFailed),
        Some(mut out) => {
            rgba_to_bgra(&mut out);
            Ok(out)
        },
    }
}

/// A prepared buffer and the outputs it is for.
pub struct WpBuffer {
    pub monitors: Vec<String>,
    pub buffer: Vec<u8>,
    pub width: u32,
    pub height: u32,
}

/// Prepares the image at `path` for a `mon_width` by `mon_height` output.
pub struct WpLoader {
    pub path: String,
    pub mon_width: u32,
    pub mon_height: u32,
}

/// What image's `crop_imm` followed by `imageops::resize` with the
/// `Gaussian` filter makes of the `cw` by `ch` box at `(left, top)` of an
/// `sw` by `sh` RGBA image, at `dw` by `dh`.
pub uninterp spec fn gaussian_resized(
    src: Seq<u8>,
    sw: u32,
    sh: u32,
    left: u32,
    top: u32,
    cw: u32,
    ch: u32,
    dw: u32,
    dh: u32,
) -> Seq<u8>;

/// Relies on image's `imageops::crop_imm` and `imageops::resize` with the
/// `Gaussian` filter on an RGBA image: the result depends on its arguments
/// alone and is `dst_width * dst_height` pixels of 4 bytes.
#[verifier::external_body]
fn crop_resize_gaussian(
    src: Vec<u8>,
    src_width: u32,
    src_height: u32,
    left: u32,
    top: u32,
    crop_width: u32,
    crop_height: u32,
    dst_width: u32,
    dst_height: u32,
) -> (r: Vec<u8>)
    requires
        src@.len() == frame_len(src_width as int, src_height as int),
        frame_len(dst_width as int, dst_height as int) <= isize::MAX,
    ensures
        r@ == gaussian_resized(
            src@,
            src_width,
            src_height,
            left,
            top,
            crop_width,
            crop_height,
            dst_width,
            dst_height,
        ),
        r@.len() == frame_len(dst_width as int, dst_height as int),
{
    let img = RgbaImage::from_raw(src_width, src_height, src).unwrap();
    let part = imageops::crop_imm(&img, left, top, crop_width, crop_height).to_image();
    imageops::resize(&part, dst_width, dst_height, FilterType::Gaussian).into_raw()
}

/// The BGRA buffer the loader makes of an `iw` by `ih` RGBA image for an `mw`
/// by `mh` output: the image itself when it has the output's size, else the
/// crop box of `crop_box`, resized with the Gaussian filter.
pub open spec fn loaded(rgba: Seq<u8>, iw: u32, ih: u32, mw: u32, mh: u32) -> Seq<u8> {
    if iw == mw && ih == mh {
        bgra_of(rgba)
    } else {
        let b = crop_box(mw as nat, mh as nat, iw as nat, ih as nat);
        bgra_of(gaussian_resized(rgba, iw, ih, b.0 as u32, b.1 as u32, b.2 as u32, b.3 as u32, mw, mh))
    }
}

impl WpLoader {
    pub fn config(path: String, mon_width: u32, mon_height: u32) -> (r: Self)
        ensures
            r.path == path,
            r.mon_width == mon_width,
            r.mon_height == mon_height,
    {
        WpLoader { path, mon_width, mon_height }
    }

    /// Turns the decoded image (RGBA, `img_width` by `img_height`) into the
    /// output's BGRA buffer: cropped to the output's aspect ratio and resized
    /// with the Gaussian filter, unless it already has the output's size.
    pub fn load(self, rgba: &Vec<u8>, img_width: u32, img_height: u32) -> (r: Result<
        WpBuffer,
        PreprocessError,
    >)
        ensures
            (img_width == 0 || img_height == 0 || self.mon_width == 0 || self.mon_height == 0)
                ==> r == Err::<WpBuffer, PreprocessError>(PreprocessError::EmptySize),
            (img_width > 0 && img_height > 0 && self.mon_width > 0 && self.mon_height > 0
                && rgba@.len() != frame_len(img_width as int, img_height as int)) ==> r == Err::<
                WpBuffer,
                PreprocessError,
            >(PreprocessError::BadLength),
            (img_width > 0 && img_height > 0 && self.mon_width > 0 && self.mon_height > 0
                && rgba@.len() == frame_len(img_width as int, img_height as int) && frame_len(
                self.mon_width as int,
                self.mon_height as int,
            ) > isize::MAX) ==> r == Err::<WpBuffer, PreprocessError>(PreprocessError::TooLarge),
            (img_width > 0 && img_height > 0 && self.mon_width > 0 && self.mon_height > 0
                && rgba@.len() == frame_len(img_width as int, img_height as int) && frame_len(
                self.mon_width as int,
                self.mon_height as int,
            ) <= isize::MAX) ==> r is Ok,
            r matches Ok(b) ==> {
                &&& b.width == self.mon_width
                &&& b.height == self.mon_height
                &&& b.monitors@.len() == 0
                &&& b.buffer@ == loaded(
                    rgba@,
                    img_width,
                    img_height,
                    self.mon_width,
                    self.mon_height,
                )
                &&& b.buffer@.len() == frame_len(self.mon_width as int, self.mon_height as int)
            },
    {
        let mon_width = self.mon_width;
        let mon_height = self.mon_height;
        if img_width == 0 || img_height == 0 || mon_width == 0 || mon_height == 0 {
            return Err(PreprocessError::EmptySize);
        }
        assert(img_width as int * img_height as int * 4 < 0x1_0000_0000_0000_0000_0000_0000)
            by (nonlinear_arith)
            requires
                img_width <= u32::MAX,
                img_height <= u32::MAX,
        ;
        assert(mon_width as int * mon_height as int * 4 < 0x1_0000_0000_0000_0000_0000_0000)
            by (nonlinear_arith)
            requires
                mon_width <= u32::MAX,
                mon_height <= u32::MAX,
        ;
        if rgba.len() as u128 != img_width as u128 * img_height as u128 * 4 {
            return Err(PreprocessError::BadLength);
        }
        if mon_width as u128 * mon_height as u128 * 4 > isize::MAX as u128 {
            return Err(PreprocessError::TooLarge);
        }
        let src = rgba.clone();
        assert(src@ =~= rgba@);
        let mut buffer = if img_width == mon_width && img_height == mon_height {
            src
        } else {
            let (left, top, crop_width, crop_height) = get_crop_params(
                mon_width,
                mon_height,
                img_width,
                img_height,
            );
            crop_resize_gaussian(
                src,
                img_width,
                img_height,
                left,
                top,
                crop_width,
                crop_height,
                mon_width,
                mon_height,
            )
        };
        rgba_to_bgra(&mut buffer);
        Ok(WpBuffer { monitors: Vec::new(), buffer, width: mon_width, height: mon_height })
    }
}

} // verus!
