//! The grow-circle transition kernel: a disc centred on the output grows
//! from nothing to the whole output, showing the new image inside it and the
//! old one outside.
//!
//! Distances are compared exactly, in integers. With the origin at
//! `(w / 2, h / 2)`, four times a squared distance is
//! `(2x - w)^2 + (2y - h)^2`, and four times the squared largest radius
//! (the distance to a corner) is `w^2 + h^2`. A pixel shows the new image at
//! frame `f` when its distance is strictly below `(f / n) * max_radius`.
use vstd::arithmetic::div_mod::{lemma_fundamental_div_mod, lemma_fundamental_div_mod_converse};
use vstd::prelude::*;

verus! {

/// Number of frames a transition takes unless told otherwise.
pub const DEFAULT_FRAMES: u32 = 40;

/// Largest output side the kernel accepts: output sizes come from the
/// compositor as `i32`.
pub const MAX_SIDE: u32 = 0x7fff_ffff;

pub struct GrowCircleTransition {
    pub n_frames: u32,
    pub width: u32,
    pub height: u32,
}

/// Four times the squared distance from `(x, y)` to the centre of a
/// `w` by `h` output.
pub open spec fn dist4(w: int, h: int, x: int, y: int) -> int {
    (2 * x - w) * (2 * x - w) + (2 * y - h) * (2 * y - h)
}

/// Number of bytes of a `w` by `h` frame of 32-bit pixels.
pub open spec fn frame_len(w: int, h: int) -> int {
    w * h * 4
}

impl GrowCircleTransition {
    pub open spec fn wf(&self) -> bool {
        &&& self.width <= MAX_SIDE
        &&& self.height <= MAX_SIDE
    }

    /// Four times the squared largest radius: the distance to any corner.
    pub open spec fn max_dist4(&self) -> int {
        self.width * self.width + self.height * self.height
    }

    /// Whether the pixel at `(x, y)` lies strictly inside the disc of frame `f`:
    /// `dist^2 < (f / n)^2 * max_radius^2`, multiplied out by `n^2`.
    pub open spec fn covers(&self, f: int, x: int, y: int) -> bool {
        f * f * self.max_dist4() > (self.n_frames * self.n_frames) * dist4(
            self.width as int,
            self.height as int,
            x,
            y,
        )
    }

    /// Byte `j` of frame `f`: pixel `j / 4`, at column `(j / 4) % width` and
    /// row `(j / 4) / width`, taken from `to` inside the disc, else from `from`.
    pub open spec fn frame_byte(&self, f: int, from: Seq<u8>, to: Seq<u8>, j: int) -> u8 {
        let p = j / 4;
        if self.covers(f, p % (self.width as int), p / (self.width as int)) {
            to[j]
        } else {
            from[j]
        }
    }

    /// The whole of frame `f`.
    pub open spec fn frame_bytes(&self, f: int, from: Seq<u8>, to: Seq<u8>) -> Seq<u8> {
        Seq::new(from.len(), |j: int| self.frame_byte(f, from, to, j))
    }

    /// Whether frame `f` lies past the last frame, where `render` reports done.
    pub open spec fn is_terminal(&self, f: int) -> bool {
        f > self.n_frames
    }

    /// Length in bytes of every buffer the kernel reads or writes.
    pub open spec fn buffer_len(&self) -> int {
        frame_len(self.width as int, self.height as int)
    }

    /// A kernel for a `width` by `height` output that takes the default number
    /// of frames.
    pub fn new(width: u32, height: u32) -> (k: Self)
        requires
            width <= MAX_SIDE,
            height <= MAX_SIDE,
        ensures
            k.wf(),
            k.width == width,
            k.height == height,
            k.n_frames == DEFAULT_FRAMES,
    {
        Self::new_with_frames(width, height, DEFAULT_FRAMES)
    }

    pub fn new_with_frames(width: u32, height: u32, n_frames: u32) -> (k: Self)
        requires
            width <= MAX_SIDE,
            height <= MAX_SIDE,
        ensures
            k.wf(),
            k.width == width,
            k.height == height,
            k.n_frames == n_frames,
    {
        GrowCircleTransition { n_frames, width, height }
    }

    /// Writes frame `frame` into `result` and returns `false`; once `frame`
    /// has passed the last frame, returns `true` and leaves `result` alone.
    pub fn render(&self, frame: u32, from: &[u8], to: &[u8], result: &mut [u8]) -> (done: bool)
        requires
            self.wf(),
            frame <= self.n_frames ==> {
                &&& from@.len() == self.buffer_len()
                &&& to@.len() == self.buffer_len()
                &&& old(result)@.len() == self.buffer_len()
            },
        ensures
            done == self.is_terminal(frame as int),
            done ==> final(result)@ == old(result)@,
            !done ==> final(result)@ == self.frame_bytes(frame as int, from@, to@),
            final(result)@.len() == old(result)@.len(),
    {
        if frame > self.n_frames {
            return true;
        }
        let ghost w = self.width as int;
        let ghost h = self.height as int;
        let len = result.len();
        let npix = len / 4;
        assert(npix == w * h && len == 4 * npix) by (nonlinear_arith)
            requires
                len == w * h * 4,
                npix == len / 4,
        ;
        let f = frame as u128;
        let n = self.n_frames as u128;
        let wd = self.width as u128;
        let ht = self.height as u128;
        proof {
            lemma_sq_bound(f as int, 0x1_0000_0000);
            lemma_sq_bound(n as int, 0x1_0000_0000);
            lemma_sq_bound(wd as int, 0x8000_0000);
            lemma_sq_bound(ht as int, 0x8000_0000);
        }
        let f2 = f * f;
        let n2 = n * n;
        let m = wd * wd + ht * ht;
        proof {
            lemma_product_bound(f2 as int, m as int);
        }
        let lhs = f2 * m;
        let mut x: u64 = 0;
        let mut y: u64 = 0;
        let mut p: usize = 0;
        while p < npix
            invariant
                self.wf(),
                frame <= self.n_frames,
                w == self.width,
                h == self.height,
                len == result@.len(),
                len == old(result)@.len(),
                from@.len() == len,
                to@.len() == len,
                npix == w * h,
                len == 4 * npix,
                p <= npix,
                p == y * w + x,
                w > 0 ==> x < w,
                x <= w,
                f == frame,
                n == self.n_frames,
                wd == w,
                ht == h,
                f2 == f * f,
                n2 == n * n,
                m == self.max_dist4(),
                lhs == f2 * m,
                n2 < 0x1_0000_0000_0000_0000,
                forall|j: int|
                    0 <= j < 4 * p ==> result@[j] == #[trigger] self.frame_byte(
                        frame as int,
                        from@,
                        to@,
                        j,
                    ),
            decreases npix - p,
        {
            assert(w > 0 && y < h) by (nonlinear_arith)
                requires
                    p < npix,
                    npix == w * h,
                    p == y * w + x,
                    x <= w,
                    w >= 0,
                    h >= 0,
            ;
            let x2 = 2 * (x as u128);
            let y2 = 2 * (y as u128);
            let dx = if x2 >= wd {
                x2 - wd
            } else {
                wd - x2
            };
            let dy = if y2 >= ht {
                y2 - ht
            } else {
                ht - y2
            };
            proof {
                lemma_sq_bound(dx as int, 0x8000_0000);
                lemma_sq_bound(dy as int, 0x8000_0000);
            }
            let d = dx * dx + dy * dy;
            proof {
                assert(d == dist4(w, h, x as int, y as int)) by (nonlinear_arith)
                    requires
                        d == dx * dx + dy * dy,
                        dx == (2 * x - w) || dx == (w - 2 * x),
                        dy == (2 * y - h) || dy == (h - 2 * y),
                ;
                lemma_product_bound(n2 as int, d as int);
            }
            let use_new = lhs > n2 * d;
            let q = 4 * p;
            assert(use_new == self.covers(frame as int, x as int, y as int));
            proof {
                lemma_fundamental_div_mod_converse(p as int, w, y as int, x as int);
            }
            if use_new {
                result[q] = to[q];
                result[q + 1] = to[q + 1];
                result[q + 2] = to[q + 2];
                result[q + 3] = to[q + 3];
            } else {
                result[q] = from[q];
                result[q + 1] = from[q + 1];
                result[q + 2] = from[q + 2];
                result[q + 3] = from[q + 3];
            }
            assert forall|j: int| 0 <= j < 4 * (p + 1) implies #[trigger] result@[j]
                == self.frame_byte(frame as int, from@, to@, j) by {
                if j >= 4 * p {
                    lemma_fundamental_div_mod_converse(j, 4, p as int, j - 4 * p);
                }
            }
            proof {
                assert(y * w + w == (y + 1) * w) by (nonlinear_arith);
            }
            p = p + 1;
            x = x + 1;
            if x == self.width as u64 {
                x = 0;
                y = y + 1;
            }
        }
        assert(result@ =~= self.frame_bytes(frame as int, from@, to@));
        false
    }
}

/// Every kernel reaches its terminal frame: frame `n_frames + 1`, which a
/// `u32` frame counter can hold whenever `n_frames < u32::MAX`.
pub proof fn lemma_kernel_terminates(k: GrowCircleTransition)
    requires
        k.n_frames < u32::MAX,
    ensures
        k.is_terminal((k.n_frames + 1) as u32 as int),
        forall|f: int| #[trigger] k.is_terminal(f) ==> k.is_terminal(f + 1),
        forall|f: int| 0 <= f <= k.n_frames ==> !#[trigger] k.is_terminal(f),
{
}

/// Every frame the kernel draws is `width * height * 4` bytes long.
pub proof fn lemma_frame_size(k: GrowCircleTransition, f: int, from: Seq<u8>, to: Seq<u8>)
    requires
        from.len() == k.buffer_len(),
        to.len() == k.buffer_len(),
    ensures
        k.frame_bytes(f, from, to).len() == frame_len(k.width as int, k.height as int),
{
}

/// When both ends of a transition are the same buffer, every frame is that
/// buffer: a restart or a cold start shows the cached image unchanged.
pub proof fn lemma_same_ends(k: GrowCircleTransition, f: int, b: Seq<u8>)
    ensures
        k.frame_bytes(f, b, b) == b,
{
    assert(k.frame_bytes(f, b, b) =~= b);
}

/// At frame 0 the disc is empty: the frame equals `from` byte for byte.
pub proof fn lemma_first_frame_is_from(k: GrowCircleTransition, from: Seq<u8>, to: Seq<u8>)
    requires
        k.wf(),
        from.len() == k.buffer_len(),
        to.len() == k.buffer_len(),
    ensures
        k.frame_bytes(0, from, to) == from,
{
    assert forall|j: int| 0 <= j < from.len() implies #[trigger] k.frame_bytes(0, from, to)[j]
        == from[j] by {
        let p = j / 4;
        let x = p % (k.width as int);
        let y = p / (k.width as int);
        let d = dist4(k.width as int, k.height as int, x, y);
        let n2 = k.n_frames * k.n_frames;
        assert(n2 * d >= 0) by (nonlinear_arith)
            requires
                n2 == k.n_frames * k.n_frames,
                d == (2 * x - k.width) * (2 * x - k.width) + (2 * y - k.height) * (2 * y
                    - k.height),
        ;
        assert(0 * 0 * k.max_dist4() == 0) by (nonlinear_arith);
    }
    assert(k.frame_bytes(0, from, to) =~= from);
}

/// At the last frame the disc reaches every corner: each pixel shows `to`,
/// except the pixel at `(0, 0)`, which lies exactly at the largest radius
/// and so stays on the `from` side.
pub proof fn lemma_last_frame_is_to(k: GrowCircleTransition, from: Seq<u8>, to: Seq<u8>)
    requires
        k.wf(),
        k.n_frames > 0,
        from.len() == k.buffer_len(),
        to.len() == k.buffer_len(),
    ensures
        forall|j: int|
            4 <= j < from.len() ==> #[trigger] k.frame_bytes(k.n_frames as int, from, to)[j]
                == to[j],
        forall|j: int|
            0 <= j < 4 && j < from.len() ==> #[trigger] k.frame_bytes(
                k.n_frames as int,
                from,
                to,
            )[j] == from[j],
{
    let w = k.width as int;
    let h = k.height as int;
    let n = k.n_frames as int;
    assert forall|j: int| 0 <= j < from.len() implies #[trigger] k.frame_bytes(n, from, to)[j]
        == if j >= 4 {
        to[j]
    } else {
        from[j]
    } by {
        let p = j / 4;
        assert(w > 0 && h > 0 && 0 <= p < w * h) by (nonlinear_arith)
            requires
                0 <= j < w * h * 4,
                p == j / 4,
                w >= 0,
                h >= 0,
        ;
        let x = p % w;
        let y = p / w;
        assert(0 <= x < w && 0 <= y < h) by (nonlinear_arith)
            requires
                0 <= p < w * h,
                w > 0,
                x == p % w,
                y == p / w,
        ;
        let dx = 2 * x - w;
        let dy = 2 * y - h;
        assert(dx * dx <= w * w && dy * dy <= h * h) by (nonlinear_arith)
            requires
                0 <= x < w,
                0 <= y < h,
                dx == 2 * x - w,
                dy == 2 * y - h,
        ;
        if j >= 4 {
            assert(p >= 1);
            assert(x > 0 || y > 0) by {
                lemma_fundamental_div_mod(p, w);
                assert(p == w * y + x);
                if x == 0 && y == 0 {
                    assert(w * y == 0) by (nonlinear_arith)
                        requires
                            y == 0,
                    ;
                }
            }
            if x > 0 {
                assert(dx * dx < w * w) by (nonlinear_arith)
                    requires
                        0 < x < w,
                        dx == 2 * x - w,
                ;
            } else {
                assert(dy * dy < h * h) by (nonlinear_arith)
                    requires
                        0 < y < h,
                        dy == 2 * y - h,
                ;
            }
            assert(n * n * k.max_dist4() > n * n * dist4(w, h, x, y)) by (nonlinear_arith)
                requires
                    n > 0,
                    k.max_dist4() > dist4(w, h, x, y),
            ;
        } else {
            assert(p == 0);
            assert(x == 0 && y == 0) by {
                lemma_fundamental_div_mod_converse(p, w, 0, 0);
            }
            assert(dist4(w, h, x, y) == k.max_dist4()) by (nonlinear_arith)
                requires
                    x == 0,
                    y == 0,
                    k.max_dist4() == w * w + h * h,
            ;
        }
    }
}

proof fn lemma_sq_bound(a: int, b: int)
    requires
        0 <= a < b,
    ensures
        0 <= a * a < b * b,
{
    assert(0 <= a * a < b * b) by (nonlinear_arith)
        requires
            0 <= a < b,
    ;
}

proof fn lemma_product_bound(a: int, b: int)
    requires
        0 <= a < 0x1_0000_0000_0000_0000,
        0 <= b < 0x8000_0000_0000_0000 + 0x8000_0000_0000_0000,
    ensures
        0 <= a * b < 0x1_0000_0000_0000_0000_0000_0000_0000_0000,
{
    assert(0 <= a * b < 0x1_0000_0000_0000_0000_0000_0000_0000_0000) by (nonlinear_arith)
        requires
            0 <= a < 0x1_0000_0000_0000_0000,
            0 <= b < 0x8000_0000_0000_0000 + 0x8000_0000_0000_0000,
    ;
}

} // verus!
