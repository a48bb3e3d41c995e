//! A per-byte fade between two images: each byte steps one unit per frame
//! from its old value towards its new one, and stops there.
use crate::kernel::frame_len;
use crate::preprocess::{bgra_of, rgba_to_bgra};
use image::imageops::FilterType;
use image::RgbaImage;
use vstd::prelude::*;

verus! {

/// The sign of `d`: -1, 0 or 1.
pub open spec fn sign(d: int) -> i8 {
    if d > 0 {
        1
    } else if d < 0 {
        -1i8
    } else {
        0
    }
}

pub open spec fn min_len(a: Seq<u8>, b: Seq<u8>) -> nat {
    if a.len() <= b.len() {
        a.len()
    } else {
        b.len()
    }
}

/// The direction each byte moves in, from `a` to `b`, over their common length.
pub open spec fn velocity(a: Seq<u8>, b: Seq<u8>) -> Seq<i8> {
    Seq::new(min_len(a, b), |i: int| sign(b[i] - a[i]))
}

/// Byte `a` moved `frame` steps of `v`, kept between `a` and `b`.
pub open spec fn stepped(a: u8, b: u8, v: i8, frame: u8) -> u8 {
    let c = a + v * frame;
    let lo = if a <= b {
        a as int
    } else {
        b as int
    };
    let hi = if a <= b {
        b as int
    } else {
        a as int
    };
    (if c < lo {
        lo
    } else if c > hi {
        hi
    } else {
        c
    }) as u8
}

/// Frame `frame` of the fade, over the common length of the three inputs.
pub open spec fn faded(a: Seq<u8>, b: Seq<u8>, v: Seq<i8>, frame: u8) -> Seq<u8> {
    let n = if min_len(a, b) <= v.len() {
        min_len(a, b)
    } else {
        v.len()
    };
    Seq::new(n, |i: int| stepped(a[i], b[i], v[i], frame))
}

/// The direction in which each byte moves from `a` to `b`.
pub fn get_velocity(a: &[u8], b: &[u8]) -> (r: Vec<i8>)
    ensures
        r@ == velocity(a@, b@),
{
    let n = if a.len() <= b.len() {
        a.len()
    } else {
        b.len()
    };
    let mut r: Vec<i8> = Vec::new();
    let mut i: usize = 0;
    while i < n
        invariant
            n == min_len(a@, b@),
            i <= n,
            r@ =~= velocity(a@, b@).take(i as int),
        decreases n - i,
    {
        let d = b[i] as i16 - a[i] as i16;
        let s: i8 = if d > 0 {
            1
        } else if d < 0 {
            -1
        } else {
            0
        };
        r.push(s);
        i = i + 1;
    }
    r
}

fn step(a: u8, b: u8, v: i8, frame: u8) -> (r: u8)
    ensures
        r == stepped(a, b, v, frame),
{
    assert(-32640 <= v * frame <= 32385) by (nonlinear_arith)
        requires
            -128 <= v <= 127,
            0 <= frame <= 255,
    ;
    let c = a as i16 + v as i16 * frame as i16;
    let lo = if a <= b {
        a as i16
    } else {
        b as i16
    };
    let hi = if a <= b {
        b as i16
    } else {
        a as i16
    };
    let kept = if c < lo {
        lo
    } else if c > hi {
        hi
    } else {
        c
    };
    kept as u8
}

/// Frame `frame` of the fade from `initial_img` to `final_img`.
pub fn apply_velocity(initial_img: &[u8], final_img: &[u8], velocity: &[i8], frame: u8) -> (r: Vec<
    u8,
>)
    ensures
        r@ == faded(initial_img@, final_img@, velocity@, frame),
{
    let ab = if initial_img.len() <= final_img.len() {
        initial_img.len()
    } else {
        final_img.len()
    };
    let n = if ab <= velocity.len() {
        ab
    } else {
        velocity.len()
    };
    let mut r: Vec<u8> = Vec::new();
    let mut i: usize = 0;
    while i < n
        invariant
            ab == min_len(initial_img@, final_img@),
            n == (if ab <= velocity@.len() {
                ab as nat
            } else {
                velocity@.len()
            }),
            i <= n,
            r@ =~= faded(initial_img@, final_img@, velocity@, frame).take(i as int),
        decreases n - i,
    {
        r.push(step(initial_img[i], final_img[i], velocity[i], frame));
        i = i + 1;
    }
    r
}

/// A fade between two whole images that it owns.
pub struct ImageTransition {
    pub frame_count: u8,
    pub velocity: Vec<i8>,
    pub initial_image: Vec<u8>,
    pub final_image: Vec<u8>,
    pub is_finished: bool,
}

/// What image's `imageops::resize` with the `Triangle` filter makes of a
/// `width` by `height` RGBA image at `nwidth` by `nheight`.
pub uninterp spec fn triangle_resized(
    rgba: Seq<u8>,
    width: u32,
    height: u32,
    nwidth: u32,
    nheight: u32,
) -> Seq<u8>;

/// Relies on image's `imageops::resize` with the `Triangle` filter on an RGBA
/// image: the result depends on its arguments alone and is `nwidth * nheight`
/// pixels of 4 bytes.
#[verifier::external_body]
fn resize_triangle(rgba: Vec<u8>, width: u32, height: u32, nwidth: u32, nheight: u32) -> (r: Vec<u8>)
    requires
        rgba@.len() == frame_len(width as int, height as int),
        frame_len(nwidth as int, nheight as int) <= isize::MAX,
    ensures
        r@ == triangle_resized(rgba@, width, height, nwidth, nheight),
        r@.len() == frame_len(nwidth as int, nheight as int),
{
    let img = RgbaImage::from_raw(width, height, rgba).unwrap();
    image::imageops::resize(&img, nwidth, nheight, FilterType::Triangle).into_raw()
}

impl ImageTransition {
    /// Brings a decoded RGBA image to `width` by `height` and reorders it as BGRA.
    pub fn read_image_as_argb(
        rgba: Vec<u8>,
        img_width: u32,
        img_height: u32,
        width: u32,
        height: u32,
    ) -> (r: Vec<u8>)
        requires
            rgba@.len() == frame_len(img_width as int, img_height as int),
            frame_len(width as int, height as int) <= isize::MAX,
        ensures
            r@.len() == frame_len(width as int, height as int),
            img_width == width && img_height == height ==> r@ == bgra_of(rgba@),
            !(img_width == width && img_height == height) ==> r@ == bgra_of(
                triangle_resized(rgba@, img_width, img_height, width, height),
            ),
    {
        let mut buff = if img_width != width || img_height != height {
            resize_triangle(rgba, img_width, img_height, width, height)
        } else {
            rgba
        };
        rgba_to_bgra(&mut buff);
        buff
    }

    pub fn new(initial_image: Vec<u8>, final_image: Vec<u8>) -> (r: Self)
        requires
            initial_image@.len() == final_image@.len(),
        ensures
            r.initial_image == initial_image,
            r.final_image == final_image,
            r.velocity@ == velocity(initial_image@, final_image@),
            r.frame_count == 0,
            !r.is_finished,
    {
        let velocity = get_velocity(initial_image.as_slice(), final_image.as_slice());
        ImageTransition { initial_image, final_image, frame_count: 0, is_finished: false, velocity }
    }

    pub fn is_finished(&self) -> (r: bool)
        ensures
            r == self.is_finished,
    {
        self.is_finished
    }

    /// The next frame. Every tenth frame, and once the counter stops at 255,
    /// the fade checks whether it is done: the frame equals the final image,
    /// or the counter can go no further.
    pub fn get_frame(&mut self) -> (r: Vec<u8>)
        ensures
            r@ == faded(
                old(self).initial_image@,
                old(self).final_image@,
                old(self).velocity@,
                old(self).frame_count,
            ),
            final(self).initial_image == old(self).initial_image,
            final(self).final_image == old(self).final_image,
            final(self).velocity == old(self).velocity,
            final(self).frame_count == if old(self).frame_count < 255 {
                (old(self).frame_count + 1) as u8
            } else {
                255u8
            },
            final(self).is_finished == if old(self).frame_count % 10 == 0 || old(self).frame_count
                == 255 {
                r@ == old(self).final_image@ || old(self).frame_count == 255
            } else {
                old(self).is_finished
            },
    {
        let frame = apply_velocity(
            self.initial_image.as_slice(),
            self.final_image.as_slice(),
            self.velocity.as_slice(),
            self.frame_count,
        );
        let next_count = self.frame_count.saturating_add(1);
        if self.frame_count % 10 == 0 || self.frame_count == next_count {
            self.is_finished = same_bytes(&frame, &self.final_image) || next_count == self.frame_count;
        }
        self.frame_count = next_count;
        frame
    }
}

fn same_bytes(a: &Vec<u8>, b: &Vec<u8>) -> (r: bool)
    ensures
        r == (a@ == b@),
{
    if a.len() != b.len() {
        return false;
    }
    let mut i: usize = 0;
    while i < a.len()
        invariant
            a@.len() == b@.len(),
            i <= a@.len(),
            forall|j: int| 0 <= j < i ==> a@[j] == b@[j],
        decreases a@.len() - i,
    {
        if a[i] != b[i] {
            return false;
        }
        i = i + 1;
    }
    assert(a@ =~= b@);
    true
}

/// A fade that draws into a buffer it is handed.
pub struct FadeInAnimation {
    pub frame_count: u8,
    pub velocity: Vec<i8>,
    pub is_finished: bool,
}

impl FadeInAnimation {
    pub fn create(curr_wallpaper: &[u8], nxt_wallpaper: &[u8]) -> (r: Self)
        ensures
            r.velocity@ == velocity(curr_wallpaper@, nxt_wallpaper@),
            r.frame_count == 0,
            !r.is_finished,
    {
        let velocity = get_velocity(curr_wallpaper, nxt_wallpaper);
        FadeInAnimation { is_finished: false, velocity, frame_count: 0 }
    }

    /// Writes frame `frame_count` of the fade over the start of `frame`; bytes
    /// past the common length of the inputs stay as they were.
    pub fn frame(&mut self, curr_wp: &[u8], nxt_wp: &[u8], frame: &mut [u8], frame_count: u8)
        ensures
            *final(self) == *old(self),
            final(frame)@.len() == old(frame)@.len(),
            ({
                let f = faded(curr_wp@, nxt_wp@, old(self).velocity@, frame_count);
                let n = if f.len() <= old(frame)@.len() {
                    f.len()
                } else {
                    old(frame)@.len() as nat
                };
                &&& forall|i: int| 0 <= i < n ==> #[trigger] final(frame)@[i] == f[i]
                &&& forall|i: int| n <= i < old(frame)@.len() ==> #[trigger] final(frame)@[i] == old(
                    frame,
                )@[i]
            }),
    {
        let ghost f = faded(curr_wp@, nxt_wp@, self.velocity@, frame_count);
        let ab = if curr_wp.len() <= nxt_wp.len() {
            curr_wp.len()
        } else {
            nxt_wp.len()
        };
        let abv = if ab <= self.velocity.len() {
            ab
        } else {
            self.velocity.len()
        };
        let n = if abv <= frame.len() {
            abv
        } else {
            frame.len()
        };
        let mut i: usize = 0;
        while i < n
            invariant
                f == faded(curr_wp@, nxt_wp@, self.velocity@, frame_count),
                abv == f.len(),
                n == (if abv <= old(frame)@.len() {
                    abv as nat
                } else {
                    old(frame)@.len()
                }),
                frame@.len() == old(frame)@.len(),
                i <= n,
                forall|j: int| 0 <= j < i ==> #[trigger] frame@[j] == f[j],
                forall|j: int| i <= j < frame@.len() ==> #[trigger] frame@[j] == old(frame)@[j],
            decreases n - i,
        {
            frame[i] = step(curr_wp[i], nxt_wp[i], self.velocity[i], frame_count);
            i = i + 1;
        }
    }
}

/// A blank `width` by `height` BGRA buffer.
pub fn load_current_wallpaper(width: u32, height: u32) -> (r: Vec<u8>)
    requires
        frame_len(width as int, height as int) <= u32::MAX,
    ensures
        r@ == Seq::new(frame_len(width as int, height as int) as nat, |i: int| 0u8),
{
    blank(width, height)
}

/// A blank `width` by `height` BGRA buffer standing for the image at `path`.
pub fn load_wallpaper(path: &str, width: u32, height: u32) -> (r: Vec<u8>)
    requires
        frame_len(width as int, height as int) <= u32::MAX,
    ensures
        r@ == Seq::new(frame_len(width as int, height as int) as nat, |i: int| 0u8),
{
    blank(width, height)
}

fn blank(width: u32, height: u32) -> (r: Vec<u8>)
    requires
        frame_len(width as int, height as int) <= u32::MAX,
    ensures
        r@ == Seq::new(frame_len(width as int, height as int) as nat, |i: int| 0u8),
{
    assert(width * height * 4 <= u32::MAX && width * height <= u32::MAX) by (nonlinear_arith)
        requires
            width * height * 4 <= u32::MAX,
            width >= 0,
            height >= 0,
    ;
    let counts = width * height * 4;
    let mut r: Vec<u8> = Vec::new();
    let mut i: u32 = 0;
    while i < counts
        invariant
            i <= counts,
            counts == frame_len(width as int, height as int),
            r@ =~= Seq::new(i as nat, |k: int| 0u8),
        decreases counts - i,
    {
        r.push(0u8);
        i = i + 1;
    }
    r
}

/// The wallpaper state of one output: the shown image, the next one and the
/// fade between them, none of which is set yet.
pub struct Wallpaper {
    pub curr_wallpaper: Option<Vec<u8>>,
    pub next_wallpaper: Option<Vec<u8>>,
    pub animation: Option<FadeInAnimation>,
}

impl Wallpaper {
    pub fn new() -> (r: Self)
        ensures
            r.curr_wallpaper is None,
            r.next_wallpaper is None,
            r.animation is None,
    {
        Wallpaper { curr_wallpaper: None, next_wallpaper: None, animation: None }
    }

    /// Accepts a new wallpaper request; the state does not change.
    pub fn handle_set_wallpaper(&mut self)
        ensures
            *final(self) == *old(self),
    {
    }

    /// Draws nothing and reports that no frame was produced.
    pub fn frame(&mut self, _frame: &mut [u8]) -> (r: bool)
        ensures
            !r,
            *final(self) == *old(self),
            final(_frame)@ == old(_frame)@,
    {
        false
    }
}

} // verus!
