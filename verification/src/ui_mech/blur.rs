//! Blur for shadow masks.
//!
//! A **three-pass box blur** on 8-bit coverage. Three boxes converge on a Gaussian
//! closely enough that the difference is invisible at shadow radii, and it costs a
//! running sum per row rather than a convolution. Integer arithmetic throughout,
//! so the result is bit-identical everywhere — the property screenshot golden
//! masters rest on. Each pass clamps at the edges: a sample past an edge reads
//! the edge pixel.
use vstd::prelude::*;

verus! {

// ── What a box pass computes ──────────────────────────────────────────────────

/// `j` clamped into `0..len`.
pub open spec fn clamp_index(j: int, len: int) -> int {
    if j < 0 {
        0
    } else if j >= len {
        len - 1
    } else {
        j
    }
}

/// Sample `j` of the line that starts at `off` and steps by `stride` for `len`
/// samples, edges clamped.
pub open spec fn sample(m: Seq<u8>, off: int, stride: int, len: int, j: int) -> int {
    m[off + clamp_index(j, len) * stride] as int
}

/// The sum of samples `lo..hi` of a line.
pub open spec fn window_sum(m: Seq<u8>, off: int, stride: int, len: int, lo: int, hi: int) -> int
    decreases hi - lo,
{
    if hi <= lo {
        0
    } else {
        window_sum(m, off, stride, len, lo, hi - 1) + sample(m, off, stride, len, hi - 1)
    }
}

/// The box of radius `r` centred on sample `c`: the mean of the `2r + 1`
/// samples around it, rounded down.
pub open spec fn box_at(m: Seq<u8>, off: int, stride: int, len: int, c: int, r: int) -> u8 {
    (window_sum(m, off, stride, len, c - r, c + r + 1) / (2 * r + 1)) as u8
}

/// One horizontal pass over a `w` × `h` mask.
pub open spec fn rows_pass(m: Seq<u8>, w: int, h: int, r: int) -> Seq<u8> {
    Seq::new((w * h) as nat, |i: int| box_at(m, (i / w) * w, 1, w, i % w, r))
}

/// One vertical pass over a `w` × `h` mask.
pub open spec fn columns_pass(m: Seq<u8>, w: int, h: int, r: int) -> Seq<u8> {
    Seq::new((w * h) as nat, |i: int| box_at(m, i % w, w, h, i / w, r))
}

/// `n` rounds of a horizontal then a vertical pass.
pub open spec fn box_blur(m: Seq<u8>, w: int, h: int, r: int, n: nat) -> Seq<u8>
    decreases n,
{
    if n == 0 {
        m
    } else {
        columns_pass(rows_pass(box_blur(m, w, h, r, (n - 1) as nat), w, h, r), w, h, r)
    }
}

/// A division table for boxes `window` samples wide: entry `s` is `s / window`
/// for every sum a window of 8-bit samples can hold. Entries past those are
/// never read.
pub open spec fn quotient_table(q: Seq<u8>, window: int) -> bool {
    &&& window > 0
    &&& q.len() >= 255 * window + 1
    &&& forall|v: int| 0 <= v <= 255 * window ==> #[trigger] q[v] as int == v / window
}

// ── Lemmas ────────────────────────────────────────────────────────────────────

proof fn lemma_window_bounds(m: Seq<u8>, off: int, stride: int, len: int, lo: int, hi: int)
    requires
        lo <= hi,
    ensures
        0 <= window_sum(m, off, stride, len, lo, hi) <= 255 * (hi - lo),
    decreases hi - lo,
{
    if hi > lo {
        lemma_window_bounds(m, off, stride, len, lo, hi - 1);
    }
}

proof fn lemma_window_front(m: Seq<u8>, off: int, stride: int, len: int, lo: int, hi: int)
    requires
        lo < hi,
    ensures
        window_sum(m, off, stride, len, lo, hi) == sample(m, off, stride, len, lo) + window_sum(
            m,
            off,
            stride,
            len,
            lo + 1,
            hi,
        ),
    decreases hi - lo,
{
    if hi - 1 > lo {
        lemma_window_front(m, off, stride, len, lo, hi - 1);
    } else {
        assert(window_sum(m, off, stride, len, lo, lo) == 0);
        assert(window_sum(m, off, stride, len, lo + 1, hi) == 0);
    }
}

/// Everything left of the line reads the first sample.
proof fn lemma_window_left_edge(m: Seq<u8>, off: int, stride: int, len: int, lo: int, k: int)
    requires
        lo <= k <= 1,
        len > 0,
    ensures
        window_sum(m, off, stride, len, lo, k) == (k - lo) * sample(m, off, stride, len, 0),
    decreases k - lo,
{
    let s0 = sample(m, off, stride, len, 0);
    if k > lo {
        lemma_window_left_edge(m, off, stride, len, lo, k - 1);
        assert(window_sum(m, off, stride, len, lo, k) == window_sum(m, off, stride, len, lo, k - 1)
            + sample(m, off, stride, len, k - 1));
        assert(sample(m, off, stride, len, k - 1) == s0);
        assert((k - lo) * s0 == (k - 1 - lo) * s0 + s0) by (nonlinear_arith);
    } else {
        assert((k - lo) * s0 == 0) by (nonlinear_arith)
            requires
                k == lo,
        ;
    }
}

proof fn lemma_cell(y: int, x: int, w: int, h: int)
    requires
        0 <= y < h,
        0 <= x < w,
    ensures
        (y * w + x) / w == y,
        (y * w + x) % w == x,
        0 <= y * w,
        y * w + x < w * h,
        y * w + w <= w * h,
{
    vstd::arithmetic::div_mod::lemma_fundamental_div_mod_converse(y * w + x, w, y, x);
    assert(0 <= y * w && y * w + w <= w * h) by (nonlinear_arith)
        requires
            0 <= y < h,
            0 < w,
    ;
}

proof fn lemma_cell_of(i: int, w: int, h: int)
    requires
        0 <= i < w * h,
        w > 0,
    ensures
        0 <= i / w < h,
        0 <= i % w < w,
        i == (i / w) * w + i % w,
{
    vstd::arithmetic::div_mod::lemma_fundamental_div_mod(i, w);
    vstd::arithmetic::div_mod::lemma_mod_pos_bound(i, w);
    vstd::arithmetic::div_mod::lemma_div_pos_is_pos(i, w);
    assert(i / w < h) by {
        vstd::arithmetic::div_mod::lemma_multiply_divide_lt(i, w, h);
    }
    assert((i / w) * w == w * (i / w)) by (nonlinear_arith);
}

// ── The passes ────────────────────────────────────────────────────────────────

/// One horizontal box pass, edges clamped. The running sum makes the cost
/// independent of the radius, which is why a wide shadow is no dearer than a
/// tight one.
pub fn box_rows(src: &[u8], dst: &mut [u8], width: usize, height: usize, radius: usize, q: &[u8])
    requires
        height > 0 ==> width > 0,
        src@.len() >= width * height,
        old(dst)@.len() >= width * height,
        255 * (2 * radius + 1) <= u32::MAX,
        quotient_table(q@, 2 * radius + 1),
    ensures
        final(dst)@.len() == old(dst)@.len(),
        forall|i: int|
            0 <= i < width * height ==> #[trigger] final(dst)@[i] == rows_pass(
                src@,
                width as int,
                height as int,
                radius as int,
            )[i],
        forall|i: int|
            width * height <= i < old(dst)@.len() ==> #[trigger] final(dst)@[i] == old(dst)@[i],
{
    let ghost m = src@;
    let ghost w = width as int;
    let ghost h = height as int;
    let ghost r = radius as int;
    let ghost goal = rows_pass(m, w, h, r);
    if height == 0 {
        proof {
            assert(w * h == 0);
        }
        return;
    }
    let last = width - 1;
    let n = src.len();
    let mut y: usize = 0;
    while y < height
        invariant
            0 <= y <= height,
            n >= w * h,
            width > 0,
            height > 0,
            last == width - 1,
            m == src@,
            m.len() >= w * h,
            w == width,
            h == height,
            r == radius,
            goal == rows_pass(m, w, h, r),
            dst@.len() == old(dst)@.len(),
            old(dst)@.len() >= w * h,
            255 * (2 * radius + 1) <= u32::MAX,
            quotient_table(q@, 2 * r + 1),
            forall|i: int|
                0 <= i < w * h && i / w < y ==> #[trigger] dst@[i] == goal[i],
            forall|i: int| w * h <= i < dst@.len() ==> #[trigger] dst@[i] == old(dst)@[i],
        decreases height - y,
    {
        proof {
            lemma_cell(y as int, 0, w, h);
        }
        let row = y * width;
        let ghost off = row as int;
        // Prime with the leading window, clamping past both edges.
        proof {
            lemma_window_left_edge(m, off, 1, w, -r, 1);
            assert(src@[row as int] as int * (radius + 1) <= 255 * (2 * radius + 1))
                by (nonlinear_arith)
                requires
                    src@[row as int] <= 255,
            ;
            assert(sample(m, off, 1, w, 0) == src@[row as int]);
            assert((1 - (-r)) * sample(m, off, 1, w, 0) == src@[row as int] as int * (radius + 1))
                by (nonlinear_arith)
                requires
                    sample(m, off, 1, w, 0) == src@[row as int],
                    r == radius,
            ;
        }
        let mut sum: u32 = (src[row] as u32) * (radius as u32 + 1);
        let mut k: usize = 1;
        while k <= radius
            invariant
                1 <= k <= radius + 1,
                width > 0,
                last == width - 1,
                m == src@,
                m.len() >= w * h,
                w == width,
                h == height,
                r == radius,
                off == row,
                0 <= y < height,
                row + width <= w * h,
                n >= w * h,
                255 * (2 * radius + 1) <= u32::MAX,
                sum == window_sum(m, off, 1, w, -r, k as int),
            decreases radius + 1 - k,
        {
            let idx = if k < last {
                k
            } else {
                last
            };
            proof {
                lemma_window_bounds(m, off, 1, w, -r, k + 1);
                assert(sample(m, off, 1, w, k as int) == src@[row + idx]);
            }
            sum = sum + src[row + idx] as u32;
            k += 1;
        }
        let mut x: usize = 0;
        while x < width
            invariant
                0 <= x <= width,
                width > 0,
                height > 0,
                last == width - 1,
                m == src@,
                m.len() >= w * h,
                w == width,
                h == height,
                r == radius,
                off == row,
                row == y * width,
                0 <= y < height,
                row + width <= w * h,
                n >= w * h,
                goal == rows_pass(m, w, h, r),
                dst@.len() == old(dst)@.len(),
                old(dst)@.len() >= w * h,
                255 * (2 * radius + 1) <= u32::MAX,
                quotient_table(q@, 2 * r + 1),
                sum == window_sum(m, off, 1, w, x - r, x + r + 1),
                forall|i: int|
                    0 <= i < w * h && (i / w < y || (i / w == y && i % w < x)) ==> #[trigger] dst@[i]
                        == goal[i],
                forall|i: int| w * h <= i < dst@.len() ==> #[trigger] dst@[i] == old(dst)@[i],
            decreases width - x,
        {
            proof {
                lemma_cell(y as int, x as int, w, h);
                lemma_window_bounds(m, off, 1, w, x - r, x + r + 1);
                assert(goal[row + x] == box_at(m, off, 1, w, x as int, r));
            }
            dst[row + x] = q[sum as usize];
            let lo = if x >= radius {
                x - radius
            } else {
                0
            };
            let room = last - x;
            let hi = if radius + 1 < room {
                x + radius + 1
            } else {
                last
            };
            let leaving = src[row + lo];
            let entering = src[row + hi];
            proof {
                lemma_window_front(m, off, 1, w, x - r, x + r + 1);
                assert(sample(m, off, 1, w, x - r) == leaving);
                assert(sample(m, off, 1, w, x + r + 1) == entering);
                lemma_window_bounds(m, off, 1, w, x - r + 1, x + r + 1);
                lemma_window_bounds(m, off, 1, w, x - r + 1, x + r + 2);
                assert(window_sum(m, off, 1, w, x - r + 1, x + r + 2) == window_sum(
                    m,
                    off,
                    1,
                    w,
                    x - r + 1,
                    x + r + 1,
                ) + sample(m, off, 1, w, x + r + 1));
                assert forall|i: int|
                    0 <= i < w * h && (i / w < y || (i / w == y && i % w < x + 1)) implies #[trigger] dst@[i]
                        == goal[i] by {
                    if i != row + x {
                        lemma_cell_of(i, w, h);
                    }
                }
            }
            sum = sum - leaving as u32 + entering as u32;
            x += 1;
        }
        proof {
            assert forall|i: int| 0 <= i < w * h && i / w < y + 1 implies #[trigger] dst@[i]
                == goal[i] by {
                lemma_cell_of(i, w, h);
            }
        }
        y += 1;
    }
    proof {
        assert forall|i: int| 0 <= i < w * h implies #[trigger] dst@[i] == goal[i] by {
            lemma_cell_of(i, w, h);
        }
    }
}


/// One vertical box pass, striding by `width`. Same running sum as
/// [`box_rows`], down each column.
pub fn box_columns(src: &[u8], dst: &mut [u8], width: usize, height: usize, radius: usize, q: &[u8])
    requires
        height > 0,
        src@.len() >= width * height,
        old(dst)@.len() >= width * height,
        255 * (2 * radius + 1) <= u32::MAX,
        quotient_table(q@, 2 * radius + 1),
    ensures
        final(dst)@.len() == old(dst)@.len(),
        forall|i: int|
            0 <= i < width * height ==> #[trigger] final(dst)@[i] == columns_pass(
                src@,
                width as int,
                height as int,
                radius as int,
            )[i],
        forall|i: int|
            width * height <= i < old(dst)@.len() ==> #[trigger] final(dst)@[i] == old(dst)@[i],
{
    let ghost m = src@;
    let ghost w = width as int;
    let ghost h = height as int;
    let ghost r = radius as int;
    let ghost goal = columns_pass(m, w, h, r);
    if width == 0 {
        proof {
            assert(w * h == 0);
        }
        return;
    }
    let last = height - 1;
    let n = src.len();
    let mut x: usize = 0;
    while x < width
        invariant
            0 <= x <= width,
            n >= w * h,
            width > 0,
            height > 0,
            last == height - 1,
            m == src@,
            m.len() >= w * h,
            w == width,
            h == height,
            r == radius,
            goal == columns_pass(m, w, h, r),
            dst@.len() == old(dst)@.len(),
            old(dst)@.len() >= w * h,
            255 * (2 * radius + 1) <= u32::MAX,
            quotient_table(q@, 2 * r + 1),
            forall|i: int| 0 <= i < w * h && i % w < x ==> #[trigger] dst@[i] == goal[i],
            forall|i: int| w * h <= i < dst@.len() ==> #[trigger] dst@[i] == old(dst)@[i],
        decreases width - x,
    {
        let ghost off = x as int;
        proof {
            lemma_cell(0, x as int, w, h);
            lemma_window_left_edge(m, off, w, h, -r, 1);
            assert(src@[x as int] as int * (radius + 1) <= 255 * (2 * radius + 1))
                by (nonlinear_arith)
                requires
                    src@[x as int] <= 255,
            ;
            assert(sample(m, off, w, h, 0) == src@[x as int]);
            assert((1 - (-r)) * sample(m, off, w, h, 0) == src@[x as int] as int * (radius + 1))
                by (nonlinear_arith)
                requires
                    sample(m, off, w, h, 0) == src@[x as int],
                    r == radius,
            ;
        }
        let mut sum: u32 = (src[x] as u32) * (radius as u32 + 1);
        let mut k: usize = 1;
        while k <= radius
            invariant
                1 <= k <= radius + 1,
                width > 0,
                height > 0,
                last == height - 1,
                m == src@,
                m.len() >= w * h,
                w == width,
                h == height,
                r == radius,
                off == x,
                0 <= x < width,
                n >= w * h,
                255 * (2 * radius + 1) <= u32::MAX,
                sum == window_sum(m, off, w, h, -r, k as int),
            decreases radius + 1 - k,
        {
            let c = if k < last {
                k
            } else {
                last
            };
            proof {
                lemma_cell(c as int, x as int, w, h);
                lemma_window_bounds(m, off, w, h, -r, k + 1);
                assert(sample(m, off, w, h, k as int) == src@[c * width + x]);
            }
            sum = sum + src[c * width + x] as u32;
            k += 1;
        }
        let mut y: usize = 0;
        while y < height
            invariant
                0 <= y <= height,
                width > 0,
                height > 0,
                last == height - 1,
                m == src@,
                m.len() >= w * h,
                w == width,
                h == height,
                r == radius,
                off == x,
                0 <= x < width,
                n >= w * h,
                goal == columns_pass(m, w, h, r),
                dst@.len() == old(dst)@.len(),
                old(dst)@.len() >= w * h,
                255 * (2 * radius + 1) <= u32::MAX,
                quotient_table(q@, 2 * r + 1),
                sum == window_sum(m, off, w, h, y - r, y + r + 1),
                forall|i: int|
                    0 <= i < w * h && (i % w < x || (i % w == x && i / w < y)) ==> #[trigger] dst@[i]
                        == goal[i],
                forall|i: int| w * h <= i < dst@.len() ==> #[trigger] dst@[i] == old(dst)@[i],
            decreases height - y,
        {
            proof {
                lemma_cell(y as int, x as int, w, h);
                lemma_window_bounds(m, off, w, h, y - r, y + r + 1);
            }
            let at = y * width + x;
            proof {
                assert(goal[at as int] == box_at(m, off, w, h, y as int, r));
            }
            dst[at] = q[sum as usize];
            let lo = if y >= radius {
                y - radius
            } else {
                0
            };
            let room = last - y;
            let hi = if radius + 1 < room {
                y + radius + 1
            } else {
                last
            };
            proof {
                lemma_cell(lo as int, x as int, w, h);
                lemma_cell(hi as int, x as int, w, h);
            }
            let leaving = src[lo * width + x];
            let entering = src[hi * width + x];
            proof {
                lemma_window_front(m, off, w, h, y - r, y + r + 1);
                assert(sample(m, off, w, h, y - r) == leaving);
                assert(sample(m, off, w, h, y + r + 1) == entering);
                lemma_window_bounds(m, off, w, h, y - r + 1, y + r + 1);
                lemma_window_bounds(m, off, w, h, y - r + 1, y + r + 2);
                assert(window_sum(m, off, w, h, y - r + 1, y + r + 2) == window_sum(
                    m,
                    off,
                    w,
                    h,
                    y - r + 1,
                    y + r + 1,
                ) + sample(m, off, w, h, y + r + 1));
                assert forall|i: int|
                    0 <= i < w * h && (i % w < x || (i % w == x && i / w < y + 1)) implies #[trigger] dst@[i]
                        == goal[i] by {
                    if i != at {
                        lemma_cell_of(i, w, h);
                    }
                }
            }
            sum = sum - leaving as u32 + entering as u32;
            y += 1;
        }
        proof {
            assert forall|i: int| 0 <= i < w * h && i % w < x + 1 implies #[trigger] dst@[i]
                == goal[i] by {
                lemma_cell_of(i, w, h);
            }
        }
        x += 1;
    }
    proof {
        assert forall|i: int| 0 <= i < w * h implies #[trigger] dst@[i] == goal[i] by {
            lemma_cell_of(i, w, h);
        }
    }
}


/// Scratch buffers, reused across every shadow in a frame: the intermediate mask,
/// and the division table for the current box width.
pub struct Scratch {
    buffer: Vec<u8>,
    /// `quotient[s] == s / window`, for every sum a window can hold. An exact
    /// table replaces the per-pixel divide with a load.
    quotient: Vec<u8>,
    window: u32,
}

impl Scratch {
    /// The division table, once built, is exact for its window.
    pub closed spec fn wf(&self) -> bool {
        self.window == 0 || quotient_table(self.quotient@, self.window as int)
    }
}

impl Default for Scratch {
    fn default() -> (r: Scratch)
        ensures
            r.wf(),
    {
        Scratch { buffer: Vec::new(), quotient: Vec::new(), window: 0 }
    }
}

/// Blur `mask` (`width` × `height`, row-major) in place with a box of half-width
/// `radius`, three times over: three rounds of a horizontal then a vertical pass.
/// A radius of zero leaves the mask as it was.
pub fn blur(mask: &mut [u8], width: usize, height: usize, radius: usize, s: &mut Scratch)
    requires
        old(mask)@.len() == width * height,
        old(s).wf(),
        255 * (2 * radius + 1) <= u32::MAX,
    ensures
        final(s).wf(),
        final(mask)@ == box_blur(old(mask)@, width as int, height as int, radius as int, 3),
{
    let ghost w = width as int;
    let ghost h = height as int;
    let ghost r = radius as int;
    let ghost start = mask@;
    if width == 0 || height == 0 {
        proof {
            assert(w * h == 0) by (nonlinear_arith)
                requires
                    w == 0 || h == 0,
            ;
            let one = box_blur(start, w, h, r, 1);
            let two = box_blur(start, w, h, r, 2);
            assert(one =~= start);
            assert(two =~= start);
            assert(box_blur(start, w, h, r, 3) =~= start);
        }
        return;
    }
    let window: u32 = (radius * 2 + 1) as u32;
    let len = mask.len();
    if s.window != window {
        s.quotient.clear();
        // Every sum a window can hold, up to and including 255 per sample.
        let top: u64 = 255 * (window as u64);
        let wide: u64 = window as u64;
        let mut v: u64 = 0;
        while v <= top
            invariant
                0 <= v <= top + 1,
                top == 255 * window,
                wide == window,
                window == 2 * radius + 1,
                255 * (2 * radius + 1) <= u32::MAX,
                s.quotient@.len() == v,
                forall|k: int| 0 <= k < v ==> #[trigger] s.quotient@[k] as int == k / (window as int),
            decreases top + 1 - v,
        {
            proof {
                assert(v / wide <= 255) by (nonlinear_arith)
                    requires
                        v <= 255 * wide,
                        wide > 0,
                ;
            }
            s.quotient.push((v / wide) as u8);
            v += 1;
        }
        s.window = window;
    }
    s.buffer.resize(len, 0);
    let mut pass: usize = 0;
    while pass < 3
        invariant
            0 <= pass <= 3,
            w == width,
            h == height,
            r == radius,
            width > 0,
            height > 0,
            len == w * h,
            mask@.len() == w * h,
            s.buffer@.len() == len,
            s.window == window,
            window == 2 * radius + 1,
            255 * (2 * radius + 1) <= u32::MAX,
            quotient_table(s.quotient@, 2 * r + 1),
            mask@ == box_blur(start, w, h, r, pass as nat),
        decreases 3 - pass,
    {
        let ghost before = mask@;
        box_rows(mask, s.buffer.as_mut_slice(), width, height, radius, s.quotient.as_slice());
        proof {
            assert(s.buffer@ =~= rows_pass(before, w, h, r));
        }
        box_columns(s.buffer.as_slice(), mask, width, height, radius, s.quotient.as_slice());
        proof {
            assert(mask@ =~= columns_pass(rows_pass(before, w, h, r), w, h, r));
            assert(box_blur(start, w, h, r, (pass + 1) as nat) == columns_pass(
                rows_pass(box_blur(start, w, h, r, pass as nat), w, h, r),
                w,
                h,
                r,
            ));
        }
        pass += 1;
    }
}


// ── Laws ──────────────────────────────────────────────────────────────────────

proof fn lemma_window_uniform(m: Seq<u8>, off: int, stride: int, len: int, lo: int, hi: int, c: int)
    requires
        lo <= hi,
        forall|j: int| lo <= j < hi ==> #[trigger] sample(m, off, stride, len, j) == c,
    ensures
        window_sum(m, off, stride, len, lo, hi) == (hi - lo) * c,
    decreases hi - lo,
{
    if hi > lo {
        lemma_window_uniform(m, off, stride, len, lo, hi - 1, c);
        assert(sample(m, off, stride, len, hi - 1) == c);
        assert((hi - lo) * c == (hi - 1 - lo) * c + c) by (nonlinear_arith);
    } else {
        assert((hi - lo) * c == 0) by (nonlinear_arith)
            requires
                hi == lo,
        ;
    }
}

proof fn lemma_box_uniform(m: Seq<u8>, off: int, stride: int, len: int, x: int, r: int, c: u8)
    requires
        r >= 0,
        forall|j: int| x - r <= j < x + r + 1 ==> #[trigger] sample(m, off, stride, len, j) == c,
    ensures
        box_at(m, off, stride, len, x, r) == c,
{
    lemma_window_uniform(m, off, stride, len, x - r, x + r + 1, c as int);
    let n = 2 * r + 1;
    assert((x + r + 1 - (x - r)) * (c as int) == n * (c as int));
    vstd::arithmetic::div_mod::lemma_div_multiples_vanish(c as int, n);
    assert(n * (c as int) == (c as int) * n) by (nonlinear_arith);
}

proof fn lemma_passes_keep_uniform(m: Seq<u8>, w: int, h: int, r: int, c: u8)
    requires
        w > 0,
        h > 0,
        r >= 0,
        m.len() == w * h,
        forall|i: int| 0 <= i < w * h ==> #[trigger] m[i] == c,
    ensures
        rows_pass(m, w, h, r) =~= m,
        columns_pass(m, w, h, r) =~= m,
{
    assert forall|i: int| 0 <= i < w * h implies #[trigger] rows_pass(m, w, h, r)[i] == m[i] by {
        lemma_cell_of(i, w, h);
        let y = i / w;
        assert forall|j: int| i % w - r <= j < i % w + r + 1 implies #[trigger] sample(
            m,
            y * w,
            1,
            w,
            j,
        ) == c by {
            lemma_cell(y, clamp_index(j, w), w, h);
        }
        lemma_box_uniform(m, y * w, 1, w, i % w, r, c);
    }
    assert forall|i: int| 0 <= i < w * h implies #[trigger] columns_pass(m, w, h, r)[i] == m[i] by {
        lemma_cell_of(i, w, h);
        let x = i % w;
        assert forall|j: int| i / w - r <= j < i / w + r + 1 implies #[trigger] sample(
            m,
            x,
            w,
            h,
            j,
        ) == c by {
            lemma_cell(clamp_index(j, h), x, w, h);
        }
        lemma_box_uniform(m, x, w, h, i / w, r, c);
    }
}

/// Every pixel of a `w` × `h` mask outside columns `x0..=x1` and rows
/// `y0..=y1` is clear.
pub open spec fn clear_outside(m: Seq<u8>, w: int, h: int, x0: int, x1: int, y0: int, y1: int) -> bool {
    forall|i: int|
        0 <= i < w * h && (i % w < x0 || i % w > x1 || i / w < y0 || i / w > y1) ==> #[trigger] m[i]
            == 0
}

proof fn lemma_rows_reach(m: Seq<u8>, w: int, h: int, r: int, x0: int, x1: int, y0: int, y1: int)
    requires
        w > 0,
        h > 0,
        r >= 0,
        m.len() == w * h,
        clear_outside(m, w, h, x0, x1, y0, y1),
    ensures
        clear_outside(rows_pass(m, w, h, r), w, h, x0 - r, x1 + r, y0, y1),
{
    let out = rows_pass(m, w, h, r);
    assert forall|i: int|
        0 <= i < w * h && (i % w < x0 - r || i % w > x1 + r || i / w < y0 || i / w > y1) implies #[trigger] out[i]
        == 0 by {
        lemma_cell_of(i, w, h);
        let y = i / w;
        let x = i % w;
        assert forall|j: int| x - r <= j < x + r + 1 implies #[trigger] sample(m, y * w, 1, w, j)
            == 0u8 by {
            let cj = clamp_index(j, w);
            lemma_cell(y, cj, w, h);
            assert(m[y * w + cj] == 0);
        }
        lemma_box_uniform(m, y * w, 1, w, x, r, 0u8);
    }
}

proof fn lemma_columns_reach(m: Seq<u8>, w: int, h: int, r: int, x0: int, x1: int, y0: int, y1: int)
    requires
        w > 0,
        h > 0,
        r >= 0,
        m.len() == w * h,
        clear_outside(m, w, h, x0, x1, y0, y1),
    ensures
        clear_outside(columns_pass(m, w, h, r), w, h, x0, x1, y0 - r, y1 + r),
{
    let out = columns_pass(m, w, h, r);
    assert forall|i: int|
        0 <= i < w * h && (i % w < x0 || i % w > x1 || i / w < y0 - r || i / w > y1 + r) implies #[trigger] out[i]
        == 0 by {
        lemma_cell_of(i, w, h);
        let y = i / w;
        let x = i % w;
        assert forall|j: int| y - r <= j < y + r + 1 implies #[trigger] sample(m, x, w, h, j)
            == 0u8 by {
            let cj = clamp_index(j, h);
            lemma_cell(cj, x, w, h);
            assert(x + cj * w == cj * w + x);
            assert(m[cj * w + x] == 0);
        }
        lemma_box_uniform(m, x, w, h, y, r, 0u8);
    }
}

/// The blur stays within its reach: `n` rounds of boxes of half-width `r`
/// spread coverage at most `n * r` pixels beyond the rectangle it started in,
/// so a buffer padded by that much contains the whole blur and no shadow is
/// clipped square at its own edges.
pub proof fn lemma_the_blur_stays_within_its_reach(
    m: Seq<u8>,
    w: int,
    h: int,
    r: int,
    n: nat,
    x0: int,
    x1: int,
    y0: int,
    y1: int,
)
    requires
        w > 0,
        h > 0,
        r >= 0,
        m.len() == w * h,
        clear_outside(m, w, h, x0, x1, y0, y1),
    ensures
        box_blur(m, w, h, r, n).len() == w * h,
        clear_outside(box_blur(m, w, h, r, n), w, h, x0 - n * r, x1 + n * r, y0 - n * r, y1 + n * r),
    decreases n,
{
    if n > 0 {
        let k = (n - 1) as nat;
        lemma_the_blur_stays_within_its_reach(m, w, h, r, k, x0, x1, y0, y1);
        let before = box_blur(m, w, h, r, k);
        assert(n * r == k * r + r) by (nonlinear_arith)
            requires
                n == k + 1,
        ;
        let (a0, a1, b0, b1) = (x0 - k * r, x1 + k * r, y0 - k * r, y1 + k * r);
        assert(w * h >= 0) by (nonlinear_arith)
            requires
                w > 0,
                h > 0,
        ;
        lemma_rows_reach(before, w, h, r, a0, a1, b0, b1);
        let rows = rows_pass(before, w, h, r);
        lemma_columns_reach(rows, w, h, r, a0 - r, a1 + r, b0, b1);
    }
}

/// Every pixel of a `w` × `h` mask in columns `x0..=x1` and rows `y0..=y1`
/// holds `c`.
pub open spec fn level_inside(m: Seq<u8>, w: int, h: int, x0: int, x1: int, y0: int, y1: int, c: u8) -> bool {
    forall|i: int|
        0 <= i < w * h && x0 <= i % w <= x1 && y0 <= i / w <= y1 ==> #[trigger] m[i] == c
}

proof fn lemma_rows_keep_core(m: Seq<u8>, w: int, h: int, r: int, x0: int, x1: int, y0: int, y1: int, c: u8)
    requires
        w > 0,
        h > 0,
        r >= 0,
        m.len() == w * h,
        0 <= x0,
        x1 < w,
        level_inside(m, w, h, x0, x1, y0, y1, c),
    ensures
        level_inside(rows_pass(m, w, h, r), w, h, x0 + r, x1 - r, y0, y1, c),
{
    let out = rows_pass(m, w, h, r);
    assert forall|i: int|
        0 <= i < w * h && x0 + r <= i % w <= x1 - r && y0 <= i / w <= y1 implies #[trigger] out[i] == c by {
        lemma_cell_of(i, w, h);
        let y = i / w;
        let x = i % w;
        assert forall|j: int| x - r <= j < x + r + 1 implies #[trigger] sample(m, y * w, 1, w, j) == c by {
            assert(clamp_index(j, w) == j);
            lemma_cell(y, j, w, h);
            assert(m[y * w + j] == c);
        }
        lemma_box_uniform(m, y * w, 1, w, x, r, c);
    }
}

proof fn lemma_columns_keep_core(m: Seq<u8>, w: int, h: int, r: int, x0: int, x1: int, y0: int, y1: int, c: u8)
    requires
        w > 0,
        h > 0,
        r >= 0,
        m.len() == w * h,
        0 <= y0,
        y1 < h,
        level_inside(m, w, h, x0, x1, y0, y1, c),
    ensures
        level_inside(columns_pass(m, w, h, r), w, h, x0, x1, y0 + r, y1 - r, c),
{
    let out = columns_pass(m, w, h, r);
    assert forall|i: int|
        0 <= i < w * h && x0 <= i % w <= x1 && y0 + r <= i / w <= y1 - r implies #[trigger] out[i] == c by {
        lemma_cell_of(i, w, h);
        let y = i / w;
        let x = i % w;
        assert forall|j: int| y - r <= j < y + r + 1 implies #[trigger] sample(m, x, w, h, j) == c by {
            assert(clamp_index(j, h) == j);
            lemma_cell(j, x, w, h);
            assert(x + j * w == j * w + x);
            assert(m[j * w + x] == c);
        }
        lemma_box_uniform(m, x, w, h, y, r, c);
    }
}

/// The core of a shape stays solid: where a mask holds one level over a
/// rectangle, `n` rounds of boxes of half-width `r` leave that level
/// untouched at least `n * r` pixels in from the rectangle's edges — only a
/// shadow's edge softens, never its middle.
pub proof fn lemma_the_core_stays_solid(
    m: Seq<u8>,
    w: int,
    h: int,
    r: int,
    n: nat,
    x0: int,
    x1: int,
    y0: int,
    y1: int,
    c: u8,
)
    requires
        w > 0,
        h > 0,
        r >= 0,
        m.len() == w * h,
        0 <= x0,
        x1 < w,
        0 <= y0,
        y1 < h,
        level_inside(m, w, h, x0, x1, y0, y1, c),
    ensures
        box_blur(m, w, h, r, n).len() == w * h,
        level_inside(box_blur(m, w, h, r, n), w, h, x0 + n * r, x1 - n * r, y0 + n * r, y1 - n * r, c),
    decreases n,
{
    if n > 0 {
        let k = (n - 1) as nat;
        lemma_the_core_stays_solid(m, w, h, r, k, x0, x1, y0, y1, c);
        let before = box_blur(m, w, h, r, k);
        assert(n * r == k * r + r) by (nonlinear_arith)
            requires
                n == k + 1,
        ;
        assert(k * r >= 0) by (nonlinear_arith)
            requires
                r >= 0,
        ;
        let (a0, a1, b0, b1) = (x0 + k * r, x1 - k * r, y0 + k * r, y1 - k * r);
        lemma_rows_keep_core(before, w, h, r, a0, a1, b0, b1, c);
        let rows = rows_pass(before, w, h, r);
        lemma_columns_keep_core(rows, w, h, r, a0 + r, a1 - r, b0, b1, c);
    }
}

proof fn lemma_window_covers(m: Seq<u8>, off: int, stride: int, len: int, lo: int, hi: int, k: int)
    requires
        lo <= k < hi,
    ensures
        window_sum(m, off, stride, len, lo, hi) >= sample(m, off, stride, len, k),
    decreases hi - lo,
{
    if k < hi - 1 {
        lemma_window_covers(m, off, stride, len, lo, hi - 1, k);
    } else {
        lemma_window_bounds(m, off, stride, len, lo, hi - 1);
    }
}

/// A box keeps at least its share of every sample it spans.
proof fn lemma_box_keeps_a_share(m: Seq<u8>, off: int, stride: int, len: int, c: int, r: int, k: int)
    requires
        r >= 0,
        c - r <= k <= c + r,
    ensures
        box_at(m, off, stride, len, c, r) as int >= sample(m, off, stride, len, k) / (2 * r + 1),
{
    let d = 2 * r + 1;
    let ws = window_sum(m, off, stride, len, c - r, c + r + 1);
    lemma_window_covers(m, off, stride, len, c - r, c + r + 1, k);
    lemma_window_bounds(m, off, stride, len, c - r, c + r + 1);
    let sv = sample(m, off, stride, len, k);
    assert(ws / d >= sv / d) by {
        vstd::arithmetic::div_mod::lemma_div_is_ordered(sv, ws, d);
    }
    assert(ws / d <= 255) by (nonlinear_arith)
        requires
            0 <= ws <= 255 * (c + r + 1 - (c - r)),
            d == 2 * r + 1,
            d > 0,
    ;
    assert(0 <= ws / d) by (nonlinear_arith)
        requires
            0 <= ws,
            d > 0,
    ;
}

/// Every round blurs along both axes: a pixel spreads at least its share —
/// a fraction `1 / (2r + 1)` for the horizontal pass and again for the
/// vertical one, each rounded down — to every pixel within `r` of it
/// horizontally *and* vertically. So a lit pixel's neighbours above and
/// below gain coverage in each round just as those beside it do.
pub proof fn lemma_each_round_spreads_both_ways(
    m: Seq<u8>,
    w: int,
    h: int,
    r: int,
    n: nat,
    x: int,
    y: int,
    i: int,
    j: int,
)
    requires
        w > 0,
        h > 0,
        r >= 0,
        m.len() == w * h,
        0 <= x < w,
        0 <= y < h,
        -r <= i <= r,
        -r <= j <= r,
        0 <= x + i < w,
        0 <= y + j < h,
    ensures
        box_blur(m, w, h, r, n + 1)[(y + j) * w + (x + i)] as int >= (box_blur(m, w, h, r, n)[y * w
            + x] as int / (2 * r + 1)) / (2 * r + 1),
{
    let d = 2 * r + 1;
    let before = box_blur(m, w, h, r, n);
    let rows = rows_pass(before, w, h, r);
    assert(box_blur(m, w, h, r, n + 1) == columns_pass(rows, w, h, r));
    // The row pass at (x + i, y) keeps a share of (x, y).
    lemma_cell(y, x + i, w, h);
    lemma_cell(y, x, w, h);
    let at_row = y * w + (x + i);
    assert(rows[at_row] == box_at(before, y * w, 1, w, x + i, r));
    assert(clamp_index(x, w) == x);
    assert(sample(before, y * w, 1, w, x) == before[y * w + x] as int);
    lemma_box_keeps_a_share(before, y * w, 1, w, x + i, r, x);
    // The column pass at (x + i, y + j) keeps a share of (x + i, y).
    lemma_cell(y + j, x + i, w, h);
    let at = (y + j) * w + (x + i);
    assert(columns_pass(rows, w, h, r)[at] == box_at(rows, x + i, w, h, y + j, r));
    assert(clamp_index(y, h) == y);
    assert((x + i) + y * w == at_row);
    assert(sample(rows, x + i, w, h, y) == rows[at_row] as int);
    lemma_box_keeps_a_share(rows, x + i, w, h, y + j, r, y);
    let v = before[y * w + x] as int;
    assert((rows[at_row] as int) / d >= (v / d) / d) by {
        vstd::arithmetic::div_mod::lemma_div_is_ordered(v / d, rows[at_row] as int, d);
    }
}

/// A mask with no pixels is left as it is, whatever the radius.
pub proof fn lemma_an_empty_mask_is_unchanged(m: Seq<u8>, w: int, h: int, r: int, n: nat)
    requires
        w == 0 || h == 0,
        w >= 0,
        h >= 0,
        m.len() == w * h,
    ensures
        box_blur(m, w, h, r, n) == m,
    decreases n,
{
    assert(w * h == 0) by (nonlinear_arith)
        requires
            w == 0 || h == 0,
    ;
    if n > 0 {
        lemma_an_empty_mask_is_unchanged(m, w, h, r, (n - 1) as nat);
        assert(rows_pass(m, w, h, r) =~= m);
        assert(columns_pass(m, w, h, r) =~= m);
    }
}

/// A uniform field is unchanged: the clamped edges never darken a fully
/// covered mask, so no shadow acquires a rim — and likewise for any level.
pub proof fn lemma_a_uniform_field_is_unchanged(m: Seq<u8>, w: int, h: int, r: int, c: u8, n: nat)
    requires
        w > 0,
        h > 0,
        r >= 0,
        m.len() == w * h,
        forall|i: int| 0 <= i < w * h ==> #[trigger] m[i] == c,
    ensures
        box_blur(m, w, h, r, n) == m,
    decreases n,
{
    if n > 0 {
        lemma_a_uniform_field_is_unchanged(m, w, h, r, c, (n - 1) as nat);
        lemma_passes_keep_uniform(m, w, h, r, c);
    }
}

/// A box of radius zero reads back the sample it is centred on.
proof fn lemma_box_of_one(m: Seq<u8>, off: int, stride: int, len: int, x: int, v: u8)
    requires
        sample(m, off, stride, len, x) == v as int,
    ensures
        box_at(m, off, stride, len, x, 0) == v,
{
    assert(window_sum(m, off, stride, len, x, x) == 0);
    assert(window_sum(m, off, stride, len, x, x + 1) == v as int);
    assert((v as int) / 1 == v as int);
}

/// A box of radius zero is the identity: every pass gives back its input.
pub proof fn lemma_zero_radius_is_identity(m: Seq<u8>, w: int, h: int, n: nat)
    requires
        w > 0,
        h > 0,
        m.len() == w * h,
    ensures
        box_blur(m, w, h, 0, n) == m,
    decreases n,
{
    if n > 0 {
        lemma_zero_radius_is_identity(m, w, h, (n - 1) as nat);
        assert forall|i: int| 0 <= i < w * h implies #[trigger] rows_pass(m, w, h, 0)[i] == m[i] by {
            lemma_cell_of(i, w, h);
            let y = i / w;
            let x = i % w;
            assert(clamp_index(x, w) == x);
            assert(sample(m, y * w, 1, w, x) == m[i] as int);
            lemma_box_of_one(m, y * w, 1, w, x, m[i]);
        }
        assert(rows_pass(m, w, h, 0) =~= m);
        assert forall|i: int| 0 <= i < w * h implies #[trigger] columns_pass(m, w, h, 0)[i] == m[i] by {
            lemma_cell_of(i, w, h);
            let y = i / w;
            let x = i % w;
            assert(clamp_index(y, h) == y);
            assert(x + y * w == i);
            assert(sample(m, x, w, h, y) == m[i] as int);
            lemma_box_of_one(m, x, w, h, y, m[i]);
        }
        assert(columns_pass(m, w, h, 0) =~= m);
    }
}

} // verus!
