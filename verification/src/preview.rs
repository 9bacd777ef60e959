//! Live preview frames of a render: the shrunken copy of a frame, and the
//! frames that get one.
use vstd::prelude::*;

verus! {

/// The byte in the source frame where the preview pixel at column `x`, row
/// `y` takes its colour from: the source pixel that nearest-neighbour scaling
/// maps it to.
pub open spec fn nearest_source_offset(w: int, h: int, pw: int, ph: int, x: int, y: int) -> int {
    ((y * h / ph) * w + (x * w / pw)) * 4
}

/// Byte `p` of the preview: channel `p % 4` of preview pixel `p / 4`, which
/// sits at column `(p / 4) % pw` of row `(p / 4) / pw`.
pub open spec fn preview_byte(source: Seq<u8>, w: int, h: int, pw: int, ph: int, p: int) -> u8 {
    source[nearest_source_offset(w, h, pw, ph, (p / 4) % pw, (p / 4) / pw) + p % 4]
}

/// A source frame whose size does not match its dimensions.
#[derive(Clone, Copy, Debug, PartialEq, Eq)]
pub struct FrameSizeMismatch {
    /// The bytes that the dimensions call for, four per pixel.
    pub expected: usize,
    /// The bytes that the frame has.
    pub actual: usize,
}

proof fn lemma_scaled_below(i: int, n: int, m: int)
    requires
        0 <= i < m,
        0 < n,
    ensures
        0 <= i * n / m < n,
{
    assert(0 <= i * n) by (nonlinear_arith)
        requires
            0 <= i,
            0 < n,
    ;
    assert(i * n / m < n) by (nonlinear_arith)
        requires
            0 <= i < m,
            0 < n,
    ;
    assert(0 <= i * n / m) by (nonlinear_arith)
        requires
            0 <= i * n,
            0 < m,
    ;
}

proof fn lemma_cell_in_frame(sx: int, sy: int, w: int, h: int)
    requires
        0 <= sx < w,
        0 <= sy < h,
    ensures
        0 <= sy * w + sx,
        (sy * w + sx) * 4 + 4 <= w * h * 4,
{
    assert(sy * w + sx < w * h) by (nonlinear_arith)
        requires
            0 <= sx < w,
            0 <= sy < h,
    ;
    assert(0 <= sy * w) by (nonlinear_arith)
        requires
            0 <= sy,
            0 <= w,
    ;
}

proof fn lemma_byte_position(p: int, y: int, x: int, c: int, pw: int)
    requires
        0 < pw,
        0 <= x < pw,
        0 <= y,
        0 <= c < 4,
        p == (y * pw + x) * 4 + c,
    ensures
        p / 4 == y * pw + x,
        p % 4 == c,
        (p / 4) % pw == x,
        (p / 4) / pw == y,
{
    vstd::arithmetic::div_mod::lemma_fundamental_div_mod_converse(p, 4, y * pw + x, c);
    vstd::arithmetic::div_mod::lemma_fundamental_div_mod_converse(y * pw + x, pw, y, x);
}

/// Shrinks an RGBA frame of `width` by `height` pixels to `preview_width` by
/// `preview_height` by nearest-neighbour sampling and leaves the result in
/// `preview`. Fails, leaving `preview` alone, when the frame does not hold
/// four bytes for each of its pixels.
pub fn downscale_rgba_nearest(
    source: &[u8],
    width: u32,
    height: u32,
    preview_width: u32,
    preview_height: u32,
    preview: &mut Vec<u8>,
) -> (r: Result<(u32, u32), FrameSizeMismatch>)
    requires
        width as int * height as int * 4 <= usize::MAX,
        preview_width as int * preview_height as int * 4 <= usize::MAX,
        preview_width >= 1,
        preview_height >= 1,
        width >= 1 && height >= 1 || source@.len() != width as int * height as int * 4,
    ensures
        match r {
            Err(e) => {
                &&& source@.len() != width as int * height as int * 4
                &&& e.expected == width as int * height as int * 4
                &&& e.actual == source@.len()
                &&& final(preview)@ == old(preview)@
            },
            Ok((a, b)) => {
                &&& source@.len() == width as int * height as int * 4
                &&& a == preview_width && b == preview_height
                &&& final(preview)@.len() == preview_width as int * preview_height as int * 4
                &&& forall|p: int|
                    0 <= p < final(preview)@.len() ==> #[trigger] final(preview)@[p] == preview_byte(
                        source@,
                        width as int,
                        height as int,
                        preview_width as int,
                        preview_height as int,
                        p,
                    )
            },
        },
{
    let w = width as usize;
    let h = height as usize;
    let pw = preview_width as usize;
    let ph = preview_height as usize;
    assert(w as int * h as int * 4 <= usize::MAX);
    let source_size = w * h * 4;
    if source.len() != source_size {
        return Err(FrameSizeMismatch { expected: source_size, actual: source.len() });
    }
    let mut out: Vec<u8> = Vec::new();
    let mut y: usize = 0;
    while y < ph
        invariant
            y <= ph,
            w == width,
            h == height,
            pw == preview_width,
            ph == preview_height,
            w >= 1,
            h >= 1,
            pw >= 1,
            ph >= 1,
            source@.len() == w * h * 4,
            w * h * 4 <= usize::MAX,
            pw * ph * 4 <= usize::MAX,
            out@.len() == y * pw * 4,
            forall|p: int|
                0 <= p < out@.len() ==> #[trigger] out@[p] == preview_byte(
                    source@,
                    w as int,
                    h as int,
                    pw as int,
                    ph as int,
                    p,
                ),
        decreases ph - y,
    {
        proof {
            lemma_scaled_below(y as int, h as int, ph as int);
            assert((y as int) * (h as int) <= u64::MAX) by (nonlinear_arith)
                requires
                    y <= u32::MAX,
                    h <= u32::MAX,
            ;
        }
        let sy: usize = ((y as u64) * (h as u64) / (ph as u64)) as usize;
        let mut x: usize = 0;
        while x < pw
            invariant
                x <= pw,
                y < ph,
                w == width,
                h == height,
                pw == preview_width,
                ph == preview_height,
                w >= 1,
                h >= 1,
                pw >= 1,
                source@.len() == w * h * 4,
                w * h * 4 <= usize::MAX,
                pw * ph * 4 <= usize::MAX,
                sy as int == (y as int) * (h as int) / (ph as int),
                sy < h,
                out@.len() == (y * pw + x) * 4,
                forall|p: int|
                    0 <= p < out@.len() ==> #[trigger] out@[p] == preview_byte(
                        source@,
                        w as int,
                        h as int,
                        pw as int,
                        ph as int,
                        p,
                    ),
            decreases pw - x,
        {
            proof {
                lemma_scaled_below(x as int, w as int, pw as int);
                assert((x as int) * (w as int) <= u64::MAX) by (nonlinear_arith)
                    requires
                        x <= u32::MAX,
                        w <= u32::MAX,
                ;
            }
            let sx: usize = ((x as u64) * (w as u64) / (pw as u64)) as usize;
            proof {
                lemma_cell_in_frame(sx as int, sy as int, w as int, h as int);
                assert((y * pw + x) * 4 + 4 <= pw * ph * 4) by (nonlinear_arith)
                    requires
                        x < pw,
                        y < ph,
                ;
                assert((sy as int) * (w as int) <= (sy as int) * (w as int) + (sx as int));
            }
            let offset = (sy * w + sx) * 4;
            let mut c: usize = 0;
            while c < 4
                invariant
                    c <= 4,
                    x < pw,
                    y < ph,
                    w == width,
                    h == height,
                    pw == preview_width,
                    ph == preview_height,
                    pw >= 1,
                    source@.len() == w * h * 4,
                    offset as int == nearest_source_offset(
                        w as int,
                        h as int,
                        pw as int,
                        ph as int,
                        x as int,
                        y as int,
                    ),
                    offset + 4 <= source@.len(),
                    out@.len() == (y * pw + x) * 4 + c,
                    forall|p: int|
                        0 <= p < out@.len() ==> #[trigger] out@[p] == preview_byte(
                            source@,
                            w as int,
                            h as int,
                            pw as int,
                            ph as int,
                            p,
                        ),
                decreases 4 - c,
            {
                proof {
                    lemma_byte_position(
                        out@.len() as int,
                        y as int,
                        x as int,
                        c as int,
                        pw as int,
                    );
                }
                out.push(source[offset + c]);
                c = c + 1;
            }
            x = x + 1;
        }
        assert(out@.len() == (y + 1) * pw * 4) by (nonlinear_arith)
            requires
                out@.len() == (y * pw + x) * 4,
                x == pw,
        ;
        y = y + 1;
    }
    assert(out@.len() == pw * ph * 4) by (nonlinear_arith)
        requires
            out@.len() == y * pw * 4,
            y == ph,
    ;
    *preview = out;
    Ok((preview_width, preview_height))
}

/// Whether frame `done` of `total` gets a preview: the first frame, the last,
/// and every `interval`-th.
pub open spec fn preview_due_spec(done: int, total: int, interval: int) -> bool {
    done == 1 || done == total || done % interval == 0
}

/// Whether a rendered frame gets a preview written.
pub fn preview_due(done: u64, total: u64, interval: u64) -> (b: bool)
    requires
        interval >= 1,
    ensures
        b == preview_due_spec(done as int, total as int, interval as int),
{
    done == 1 || done == total || done % interval == 0
}

} // verus!
