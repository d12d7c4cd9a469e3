//! What a plan's operations do to tiled buffers whose contents may be longer
//! or shorter than their sizes say.
//!
//! A plan is replayed as it was recorded: a buffer keeps whatever elements it
//! was given, and an operation fails only where it would touch one that is
//! not there. The functions here give `None` on exactly those operands.

use crate::arith::{index_bound, index_parts, mul3, split_index};
use crate::bf16::{bf16_to_f32, f32_to_bf16_canonical};
use crate::tiled::{
    channel_of, cropped, planar, sliced, subsampled, tile, tile_at, tile_at_injective, tile_index, tile_len, tile_len_is, tile_parts,
    x_of, y_of, Buf, Ops,
};
use vstd::prelude::*;

verus! {

// ----------------------------------------------------------------------------
// Places
// ----------------------------------------------------------------------------

/// A place with larger parts is no earlier.
proof fn tile_grows(w: int, ng: int, a: (int, int, int, int), b: (int, int, int, int))
    requires
        0 <= w,
        0 <= ng,
        0 <= a.0 <= b.0,
        0 <= a.1 <= b.1,
        0 <= a.2 <= b.2,
        0 <= a.3 <= b.3,
    ensures
        0 <= tile(w, ng, a.0, a.1, a.2, a.3) <= tile(w, ng, b.0, b.1, b.2, b.3),
{
    assert(0 <= a.0 * ng <= b.0 * ng) by (nonlinear_arith)
        requires
            0 <= a.0 <= b.0,
            0 <= ng,
    ;
    let (p, q) = (a.0 * ng + a.1, b.0 * ng + b.1);
    assert(0 <= p * w <= q * w) by (nonlinear_arith)
        requires
            0 <= p <= q,
            0 <= w,
    ;
}

/// The index of a place, if it is below `len`.
fn place(w: usize, ng: usize, y: usize, g: usize, x: usize, lane: usize, len: usize) -> (r: Option<usize>)
    requires
        lane < 8,
    ensures
        match r {
            Some(i) => i == tile(w as int, ng as int, y as int, g as int, x as int, lane as int) && i < len,
            None => tile(w as int, ng as int, y as int, g as int, x as int, lane as int) >= len,
        },
{
    let ghost (wi, ni, yi) = (w as int, ng as int, y as int);
    let ghost rows = yi * ni + g;
    proof {
        assert(yi * ni >= 0 && rows * wi >= 0) by (nonlinear_arith)
            requires
                yi >= 0,
                ni >= 0,
                wi >= 0,
                rows == yi * ni + g,
                g >= 0,
        ;
    }
    proof {
        assert(yi * ni <= 0xffff_ffff_ffff_ffff * 0xffff_ffff_ffff_ffff) by (nonlinear_arith)
            requires
                0 <= yi <= 0xffff_ffff_ffff_ffff,
                0 <= ni <= 0xffff_ffff_ffff_ffff,
        ;
    }
    let a: u128 = y as u128 * ng as u128 + g as u128;
    if w == 0 {
        proof {
            assert(rows * wi == 0) by (nonlinear_arith)
                requires
                    wi == 0,
            ;
        }
        if x < len / 8 || (x == len / 8 && lane < len % 8) {
            return Some(x * 8 + lane);
        }
        return None;
    }
    if a > usize::MAX as u128 {
        proof {
            assert(rows * wi >= rows) by (nonlinear_arith)
                requires
                    rows >= 0,
                    wi >= 1,
            ;
        }
        return None;
    }
    proof {
        assert(rows * wi <= 0xffff_ffff_ffff_ffff * 0xffff_ffff_ffff_ffff) by (nonlinear_arith)
            requires
                0 <= rows <= 0xffff_ffff_ffff_ffff,
                0 <= wi <= 0xffff_ffff_ffff_ffff,
        ;
    }
    let b: u128 = a * w as u128 + x as u128;
    if b > usize::MAX as u128 {
        return None;
    }
    let c: u128 = b * 8 + lane as u128;
    if c < len as u128 {
        Some(c as usize)
    } else {
        None
    }
}

/// The last of `h` rows, `ng` groups and `w` columns, on a grid of `wp`
/// columns and `grid` groups whose groups start at `g0`, is below `len`;
/// or there is none.
pub open spec fn reaches(wp: int, grid: int, h: int, g0: int, ng: int, w: int, len: int) -> bool {
    h <= 0 || ng <= 0 || w <= 0 || tile(wp, grid, h - 1, g0 + ng - 1, w - 1, 7) < len
}

fn inside(wp: usize, grid: usize, h: usize, g0: u64, ng: usize, w: usize, len: usize) -> (r: bool)
    requires
        wp > 0 || g0 == 0,
    ensures
        r == reaches(wp as int, grid as int, h as int, g0 as int, ng as int, w as int, len as int),
{
    if h == 0 || ng == 0 || w == 0 {
        return true;
    }
    let g: u128 = g0 as u128 + (ng - 1) as u128;
    if g > usize::MAX as u128 {
        proof {
            if wp > 0 {
                let (y, n, k, p) = ((h - 1) as int, grid as int, g as int, wp as int);
                assert(y * n >= 0) by (nonlinear_arith)
                    requires
                        y >= 0,
                        n >= 0,
                ;
                assert((y * n + k) * p >= k) by (nonlinear_arith)
                    requires
                        y * n >= 0,
                        k >= 0,
                        p >= 1,
                ;
            }
        }
        return false;
    }
    match place(wp, grid, h - 1, g as usize, w - 1, 7, len) {
        Some(_) => true,
        None => false,
    }
}

/// Whether a tiled buffer of these sizes can be held; its length.
pub(crate) fn held(h: usize, ng: usize, w: usize) -> (r: Option<usize>)
    ensures
        match r {
            Some(n) => n == tile_len(h as int, ng as int, w as int),
            None => tile_len(h as int, ng as int, w as int) > usize::MAX,
        },
{
    match mul3(h, ng, w) {
        None => {
            proof {
                let t = h * ng * w;
                assert(t * 8 >= t) by (nonlinear_arith)
                    requires
                        t >= 0,
                ;
            }
            None
        },
        Some(n) => if n <= usize::MAX / 8 {
            Some(n * 8)
        } else {
            None
        },
    }
}

// ----------------------------------------------------------------------------
// Moving elements
// ----------------------------------------------------------------------------

/// Groups `g0 .. g0 + ng` of `src` can be sliced out, padded to `wp`
/// columns.
pub open spec fn slice_fits(src: Buf, g0: int, ng: int, wp: int) -> bool {
    &&& tile_len(src.h as int, ng, wp) <= usize::MAX
    &&& src.h == 0 || ng == 0 || src.w == 0 || src.w <= wp
    &&& reaches(src.w as int, src.c as int / 8, src.h as int, g0, ng, src.w as int, src.v@.len() as int)
}

/// Extracts channel groups `g0 .. g0 + ng`, zero-padding the width to `wp`.
pub fn slice(src: &Buf, g0: u64, ng: usize, wp: usize) -> (r: Option<Vec<u16>>)
    ensures
        match r {
            Some(v) => slice_fits(*src, g0 as int, ng as int, wp as int) && v@ == sliced(
                src,
                g0 as int,
                ng as int,
                wp as int,
            ),
            None => !slice_fits(*src, g0 as int, ng as int, wp as int),
        },
{
    let total: usize = match held(src.h, ng, wp) {
        Some(n) => n,
        None => {
            return None;
        },
    };
    if src.h > 0 && ng > 0 && src.w > 0 {
        if src.w > wp || !inside(src.w, src.c / 8, src.h, g0, ng, src.w, src.v.len()) {
            return None;
        }
    }
    let grid: usize = src.c / 8;
    let len: usize = src.v.len();
    let ghost (hi, gi, wi) = (src.h as int, ng as int, wp as int);
    let ghost want = sliced(src, g0 as int, gi, wi);
    let mut out: Vec<u16> = Vec::new();
    let mut i: usize = 0;
    while i < total
        invariant
            slice_fits(*src, g0 as int, gi, wi),
            grid == src.c / 8,
            len == src.v@.len(),
            hi == src.h,
            gi == ng,
            wi == wp,
            total == tile_len(hi, gi, wi),
            want == sliced(src, g0 as int, gi, wi),
            i <= total,
            out@ == want.take(i as int),
        decreases total - i,
    {
        proof {
            tile_parts(i as int, hi, gi, wi);
        }
        let x: usize = i / 8 % wp;
        let v: u16 = if x < src.w {
            let lane: usize = i % 8;
            let g: usize = i / 8 / wp % ng;
            let y: usize = i / 8 / wp / ng;
            proof {
                tile_grows(
                    src.w as int,
                    grid as int,
                    (y as int, g0 + g, x as int, lane as int),
                    (hi - 1, g0 + gi - 1, src.w - 1, 7),
                );
                group_small(src.w as int, grid as int, y as int, g0 + g, x as int, lane as int);
            }
            match place(src.w, grid, y, g0 as usize + g, x, lane, len) {
                Some(at) => src.v[at],
                None => 0,
            }
        } else {
            0
        };
        proof {
            assert(want.take(i + 1) =~= want.take(i as int).push(v));
        }
        out.push(v);
        i += 1;
    }
    proof {
        assert(want.take(total as int) =~= want);
    }
    Some(out)
}

/// A place is no earlier than its group.
proof fn group_small(w: int, ng: int, y: int, g: int, x: int, lane: int)
    requires
        w > 0,
        ng >= 0,
        y >= 0,
        g >= 0,
        x >= 0,
        lane >= 0,
    ensures
        g <= tile(w, ng, y, g, x, lane),
{
    assert(y * ng >= 0) by (nonlinear_arith)
        requires
            y >= 0,
            ng >= 0,
    ;
    let a = y * ng + g;
    assert(a * w >= a) by (nonlinear_arith)
        requires
            a >= 0,
            w >= 1,
    ;
}

/// Every `stride`th row and column of `src` is there.
pub open spec fn subsample_fits(src: Buf, stride: int) -> bool {
    let (oh, ng, ow) = (src.h as int / stride, src.c as int / 8, src.w as int / stride);
    &&& stride > 0
    &&& tile_len(oh, ng, ow) <= usize::MAX
    &&& oh == 0 || ng == 0 || ow == 0 || tile(src.w as int, ng, stride * (oh - 1), ng - 1, stride * (ow - 1), 7)
        < src.v@.len()
}

/// Every `stride`th row and column.
pub fn subsample(src: &Buf, stride: usize) -> (r: Option<Buf>)
    ensures
        match r {
            Some(b) => subsample_fits(*src, stride as int) && b.c == src.c && b.h == src.h / stride && b.w == src.w
                / stride && b.v@ == subsampled(src, stride as int),
            None => !subsample_fits(*src, stride as int),
        },
{
    if stride == 0 {
        return None;
    }
    let oh: usize = src.h / stride;
    let ow: usize = src.w / stride;
    let ng: usize = src.c / 8;
    let total: usize = match held(oh, ng, ow) {
        Some(n) => n,
        None => {
            return None;
        },
    };
    let ghost (hi, gi, wi, st) = (oh as int, ng as int, ow as int, stride as int);
    proof {
        vstd::arithmetic::div_mod::lemma_fundamental_div_mod(src.h as int, st);
        vstd::arithmetic::div_mod::lemma_fundamental_div_mod(src.w as int, st);
        assert(st * hi <= src.h && st * wi <= src.w);
        assert(st * (hi - 1) == st * hi - st && st * (wi - 1) == st * wi - st) by (nonlinear_arith);
    }
    if oh > 0 && ng > 0 && ow > 0 {
        match place(src.w, ng, stride * (oh - 1), ng - 1, stride * (ow - 1), 7, src.v.len()) {
            Some(_) => {},
            None => {
                return None;
            },
        }
    }
    let ghost want = subsampled(src, st);
    let mut out: Vec<u16> = Vec::new();
    let mut i: usize = 0;
    while i < total
        invariant
            subsample_fits(*src, st),
            st == stride,
            oh == src.h / stride,
            ow == src.w / stride,
            ng == src.c / 8,
            hi == oh,
            gi == ng,
            wi == ow,
            st * hi <= src.h,
            st * wi <= src.w,
            total == tile_len(hi, gi, wi),
            want == subsampled(src, st),
            i <= total,
            out@ == want.take(i as int),
        decreases total - i,
    {
        proof {
            tile_parts(i as int, hi, gi, wi);
        }
        let lane: usize = i % 8;
        let x: usize = i / 8 % ow;
        let g: usize = i / 8 / ow % ng;
        let y: usize = i / 8 / ow / ng;
        proof {
            assert(0 <= st * y <= st * (hi - 1) && st * (hi - 1) <= st * hi && 0 <= st * x <= st * (wi - 1) && st * (wi
                - 1) <= st * wi) by (nonlinear_arith)
                requires
                    0 <= y <= hi - 1,
                    0 <= x <= wi - 1,
                    st > 0,
            ;
            tile_grows(
                src.w as int,
                gi,
                (st * y, g as int, st * x, lane as int),
                (st * (hi - 1), gi - 1, st * (wi - 1), 7),
            );
        }
        let v: u16 = match place(src.w, ng, stride * y, g, stride * x, lane, src.v.len()) {
            Some(at) => src.v[at],
            None => 0,
        };
        proof {
            assert(want.take(i + 1) =~= want.take(i as int).push(v));
        }
        out.push(v);
        i += 1;
    }
    proof {
        assert(want.take(total as int) =~= want);
    }
    Some(Buf { v: out, c: src.c, h: oh, w: ow })
}

/// The sums `acc` of `oc` channels, `oh` rows and `owp` columns can be
/// cropped to `ow` columns.
pub open spec fn crop_fits(len: int, oc: int, oh: int, owp: int, ow: int) -> bool {
    tile_len(oh, oc / 8, ow) <= usize::MAX && reaches(owp, oc / 8, oh, 0, oc / 8, ow, len)
}

/// Whether the sums can be cropped.
pub fn can_crop(len: usize, c: usize, h: usize, wp: usize, w: usize) -> (r: bool)
    ensures
        r == crop_fits(len as int, c as int, h as int, wp as int, w as int),
{
    held(h, c / 8, w).is_some() && inside(wp, c / 8, h, 0, c / 8, w, len)
}

/// Rounds the sums of a convolution with `c` output channels to bfloat16,
/// cropping the padded width `wp` to `w`.
pub fn crop(acc: &Vec<u32>, c: usize, h: usize, wp: usize, w: usize) -> (b: Buf)
    requires
        crop_fits(acc@.len() as int, c as int, h as int, wp as int, w as int),
    ensures
        b.c == c && b.h == h && b.w == w && b.v@ == cropped(acc@, c as int / 8, h as int, wp as int, w as int),
{
    let ng: usize = c / 8;
    let total: usize = match held(h, ng, w) {
        Some(n) => n,
        None => 0,
    };
    let ghost (hi, gi, wi) = (h as int, ng as int, w as int);
    let ghost want = cropped(acc@, gi, hi, wp as int, wi);
    let mut v: Vec<u16> = Vec::new();
    let mut i: usize = 0;
    while i < total
        invariant
            crop_fits(acc@.len() as int, c as int, hi, wp as int, wi),
            ng == c / 8,
            hi == h,
            gi == ng,
            wi == w,
            total == tile_len(hi, gi, wi),
            want == cropped(acc@, gi, hi, wp as int, wi),
            i <= total,
            v@ == want.take(i as int),
        decreases total - i,
    {
        proof {
            tile_parts(i as int, hi, gi, wi);
        }
        let lane: usize = i % 8;
        let x: usize = i / 8 % w;
        let g: usize = i / 8 / w % ng;
        let y: usize = i / 8 / w / ng;
        proof {
            tile_grows(wp as int, gi, (y as int, g as int, x as int, lane as int), (hi - 1, gi - 1, wi - 1, 7));
        }
        let s: u32 = match place(wp, ng, y, g, x, lane, acc.len()) {
            Some(at) => acc[at],
            None => 0,
        };
        let e: u16 = f32_to_bf16_canonical(s);
        proof {
            assert(want.take(i + 1) =~= want.take(i as int).push(e));
        }
        v.push(e);
        i += 1;
    }
    proof {
        assert(want.take(total as int) =~= want);
    }
    Buf { v, c, h, w }
}

/// `b` is `l + r` as far as both go, of `l`'s sizes.
pub open spec fn is_sum<A: Fn(u32, u32) -> u32, M: Fn(u32, u32) -> u32>(ops: &Ops<A, M>, l: Buf, r: Buf, b: Buf) -> bool {
    &&& b.same_shape(&l)
    &&& b.v@.len() == (if l.v@.len() <= r.v@.len() {
        l.v@.len()
    } else {
        r.v@.len()
    })
    &&& forall|i: int| #![trigger b.v@[i]] 0 <= i < b.v@.len() ==> ops.plus16(l.v@[i], r.v@[i], b.v@[i])
}

/// The element-wise sum of two buffers, as far as both go.
pub fn total<A: Fn(u32, u32) -> u32, M: Fn(u32, u32) -> u32>(l: &Buf, r: &Buf, ops: &Ops<A, M>) -> (b: Buf)
    requires
        ops.total(),
    ensures
        is_sum(ops, *l, *r, b),
{
    let mut v: Vec<u16> = Vec::new();
    let mut i: usize = 0;
    while i < l.v.len() && i < r.v.len()
        invariant
            ops.total(),
            i <= l.v@.len(),
            i <= r.v@.len(),
            v@.len() == i,
            forall|k: int| #![trigger v@[k]] 0 <= k < i ==> ops.plus16(l.v@[k], r.v@[k], v@[k]),
        decreases l.v@.len() - i,
    {
        v.push(ops.add16(l.v[i], r.v[i]));
        i += 1;
    }
    Buf { v, c: l.c, h: l.h, w: l.w }
}

// ----------------------------------------------------------------------------
// Channel by channel
// ----------------------------------------------------------------------------

/// The channel of visit `n` to a buffer, row by row, channel by channel,
/// column by column.
pub open spec fn visit_channel(b: Buf, n: int) -> int {
    n / (b.w as int) % (b.c as int)
}

/// The element of visit `n`.
pub open spec fn visit(b: Buf, n: int) -> int {
    tile_at(b.c as int, b.w as int, visit_channel(b, n), n / (b.w as int) / (b.c as int), n % (b.w as int))
}

/// Every visit finds its element, and one of `values` values for its
/// channel.
pub open spec fn walk_fits(b: Buf, values: int) -> bool {
    b.c == 0 || b.h == 0 || b.w == 0 || (b.c <= values && tile_at(b.c as int, b.w as int, b.c - 1, b.h - 1, b.w - 1)
        < b.v@.len())
}

/// `tr` are the contents before and after each of the first `n` visits: each
/// changes its element to what `f` makes, for its channel, of the element
/// as it is, or as it was at first.
pub open spec fn is_walk(
    b: Buf,
    start: Seq<u16>,
    f: spec_fn(int, u16, u16) -> bool,
    in_place: bool,
    tr: Seq<Seq<u16>>,
    n: int,
) -> bool {
    &&& tr.len() == n + 1
    &&& tr[0] == start
    &&& forall|k: int| #![trigger tr[k + 1]]
        0 <= k < n ==> {
            let i = visit(b, k);
            let was = if in_place {
                tr[k][i]
            } else {
                b.v@[i]
            };
            f(visit_channel(b, k), was, tr[k + 1][i]) && tr[k + 1] == tr[k].update(i, tr[k + 1][i])
        }
}

/// `end` is what visiting every channel, row and column makes of `start`.
pub open spec fn walks_to(b: Buf, start: Seq<u16>, f: spec_fn(int, u16, u16) -> bool, in_place: bool, end: Seq<u16>) -> bool {
    exists|tr: Seq<Seq<u16>>| #[trigger] is_walk(b, start, f, in_place, tr, b.c * b.h * b.w) && tr.last() == end
}

/// What a step makes of an element.
pub open spec fn made_by<F: Fn(usize, u16) -> u16>(f: F) -> spec_fn(int, u16, u16) -> bool {
    |ch: int, x: u16, r: u16| call_ensures(f, (ch as usize, x), r)
}

proof fn visit_parts(b: Buf, y: int, ch: int, x: int)
    requires
        0 <= y,
        0 <= ch < b.c,
        0 <= x < b.w,
    ensures
        ({
            let n = (y * b.c + ch) * b.w + x;
            visit_channel(b, n) == ch && visit(b, n) == tile_at(b.c as int, b.w as int, ch, y, x)
        }),
{
    split_index(y * b.c + ch, x, b.w as int);
    split_index(y, ch, b.c as int);
}

/// The last channel's element in the last row and column is the last.
proof fn visits_stay_below(b: Buf, y: int, ch: int, x: int)
    requires
        0 <= y < b.h,
        0 <= ch < b.c,
        0 <= x < b.w,
    ensures
        0 <= tile_at(b.c as int, b.w as int, ch, y, x) <= tile_at(b.c as int, b.w as int, b.c - 1, b.h - 1, b.w - 1),
{
    let (c, h, w) = (b.c as int, b.h as int, b.w as int);
    let ng = c / 8;
    let last = (c - 1) / 8;
    if ch / 8 == last {
        tile_grows(w, ng, (y, ch / 8, x, ch % 8), (h - 1, last, w - 1, (c - 1) % 8));
    } else {
        tile_grows(w, ng, (y, ch / 8, x, ch % 8), (h - 1, last - 1, w - 1, 7));
        tile_grows(w, ng, (h - 1, last, 0, 0), (h - 1, last, w - 1, (c - 1) % 8));
        let a = (h - 1) * ng + last;
        assert((a - 1) * w + w == a * w) by (nonlinear_arith);
    }
}

fn walk<F: Fn(usize, u16) -> u16>(b: &Buf, start: Vec<u16>, in_place: bool, f: &F) -> (r: Vec<u16>)
    requires
        walk_fits(*b, b.c as int),
        start@.len() == b.v@.len(),
        forall|ch: usize, x: u16| ch < b.c ==> #[trigger] call_requires(*f, (ch, x)),
    ensures
        walks_to(*b, start@, made_by(*f), in_place, r@),
        r@.len() == b.v@.len(),
{
    let ghost first = start@;
    let mut v: Vec<u16> = start;
    let len: usize = b.v.len();
    let ng: usize = b.c / 8;
    let ghost mut tr: Seq<Seq<u16>> = seq![first];
    let ghost mut n: int = 0;
    let mut y: usize = 0;
    proof {
        assert(0 * b.c == 0 && (0 * b.c) * b.w == 0) by (nonlinear_arith);
    }
    while y < b.h
        invariant
            walk_fits(*b, b.c as int),
            forall|ch: usize, x: u16| ch < b.c ==> #[trigger] call_requires(*f, (ch, x)),
            len == b.v@.len(),
            ng == b.c / 8,
            y <= b.h,
            v@.len() == len,
            n == (y * b.c) * b.w,
            is_walk(*b, first, made_by(*f), in_place, tr, n),
            tr.last() == v@,
        decreases b.h - y,
    {
        let mut ch: usize = 0;
        proof {
            assert((y * b.c + 0) * b.w == (y * b.c) * b.w) by (nonlinear_arith);
        }
        while ch < b.c
            invariant
                walk_fits(*b, b.c as int),
                forall|ch: usize, x: u16| ch < b.c ==> #[trigger] call_requires(*f, (ch, x)),
                len == b.v@.len(),
                ng == b.c / 8,
                y < b.h,
                ch <= b.c,
                v@.len() == len,
                n == (y * b.c + ch) * b.w,
                is_walk(*b, first, made_by(*f), in_place, tr, n),
                tr.last() == v@,
            decreases b.c - ch,
        {
            let mut x: usize = 0;
            while x < b.w
                invariant
                    walk_fits(*b, b.c as int),
                    forall|ch: usize, x: u16| ch < b.c ==> #[trigger] call_requires(*f, (ch, x)),
                    len == b.v@.len(),
                    ng == b.c / 8,
                    y < b.h,
                    ch < b.c,
                    x <= b.w,
                    v@.len() == len,
                    n == (y * b.c + ch) * b.w + x,
                    is_walk(*b, first, made_by(*f), in_place, tr, n),
                    tr.last() == v@,
                decreases b.w - x,
            {
                proof {
                    visits_stay_below(*b, y as int, ch as int, x as int);
                    visit_parts(*b, y as int, ch as int, x as int);
                }
                match place(b.w, ng, y, ch / 8, x, ch % 8, len) {
                    Some(i) => {
                        let was: u16 = if in_place {
                            v[i]
                        } else {
                            b.v[i]
                        };
                        let new: u16 = f(ch, was);
                        let ghost before = v@;
                        v.set(i, new);
                        proof {
                            let next = tr.push(v@);
                            assert(n >= 0) by (nonlinear_arith)
                                requires
                                    n == (y * b.c + ch) * b.w + x,
                            ;
                            assert forall|k: int| #![trigger next[k + 1]] 0 <= k < n + 1 implies ({
                                let i = visit(*b, k);
                                let was = if in_place {
                                    next[k][i]
                                } else {
                                    b.v@[i]
                                };
                                made_by(*f)(visit_channel(*b, k), was, next[k + 1][i]) && next[k + 1] == next[k].update(
                                    i,
                                    next[k + 1][i],
                                )
                            }) by {
                                if k < n {
                                    assert(next[k + 1] == tr[k + 1] && next[k] == tr[k]);
                                } else {
                                    assert(next[k + 1] == v@ && next[k] == before);
                                }
                            }
                            tr = next;
                            n = n + 1;
                        }
                    },
                    None => {
                        assert(false);
                    },
                }
                x += 1;
            }
            proof {
                assert((y * b.c + ch) * b.w + b.w == (y * b.c + (ch + 1)) * b.w) by (nonlinear_arith);
            }
            ch += 1;
        }
        proof {
            assert((y * b.c + b.c) * b.w == ((y + 1) * b.c) * b.w) by (nonlinear_arith);
        }
        y += 1;
    }
    proof {
        assert((b.h * b.c) * b.w == b.c * b.h * b.w) by (nonlinear_arith);
        assert(is_walk(*b, first, made_by(*f), in_place, tr, b.c * b.h * b.w));
    }
    v
}

/// A step that does no more than another.
proof fn walk_as(
    b: Buf,
    start: Seq<u16>,
    f: spec_fn(int, u16, u16) -> bool,
    g: spec_fn(int, u16, u16) -> bool,
    in_place: bool,
    end: Seq<u16>,
)
    requires
        walks_to(b, start, f, in_place, end),
        forall|ch: int, x: u16, r: u16| 0 <= ch < b.c && #[trigger] f(ch, x, r) ==> g(ch, x, r),
    ensures
        walks_to(b, start, g, in_place, end),
{
    let n = b.c * b.h * b.w;
    let tr = choose|tr: Seq<Seq<u16>>| #[trigger] is_walk(b, start, f, in_place, tr, n) && tr.last() == end;
    assert forall|k: int| #![trigger tr[k + 1]] 0 <= k < n implies ({
        let i = visit(b, k);
        let was = if in_place {
            tr[k][i]
        } else {
            b.v@[i]
        };
        g(visit_channel(b, k), was, tr[k + 1][i]) && tr[k + 1] == tr[k].update(i, tr[k + 1][i])
    }) by {
        assert(b.c > 0 && b.w > 0) by (nonlinear_arith)
            requires
                0 <= k < b.c * b.h * b.w,
                b.c >= 0,
                b.w >= 0,
                b.h >= 0,
        ;
        let ch = visit_channel(b, k);
        assert(0 <= ch < b.c) by (nonlinear_arith)
            requires
                ch == k / (b.w as int) % (b.c as int),
                b.c > 0,
        ;
    }
    assert(is_walk(b, start, g, in_place, tr, n));
}

/// `x * scale + shift`, by channel.
pub open spec fn affine_step<A: Fn(u32, u32) -> u32, M: Fn(u32, u32) -> u32>(
    ops: &Ops<A, M>,
    scale: Seq<u16>,
    shift: Seq<u16>,
) -> spec_fn(int, u16, u16) -> bool {
    |ch: int, x: u16, r: u16| ops.affine(x, scale[ch], shift[ch], r)
}

/// The PReLU of `x + bias`, by channel.
pub open spec fn prelu_step<A: Fn(u32, u32) -> u32, M: Fn(u32, u32) -> u32>(
    ops: &Ops<A, M>,
    alpha: Seq<u16>,
    bias: Seq<u16>,
) -> spec_fn(int, u16, u16) -> bool {
    |ch: int, x: u16, r: u16| ops.prelu_bias(x, alpha[ch], bias[ch], r)
}

/// `x + bias`, by channel.
pub open spec fn bias_step<A: Fn(u32, u32) -> u32, M: Fn(u32, u32) -> u32>(
    ops: &Ops<A, M>,
    bias: Seq<u16>,
) -> spec_fn(int, u16, u16) -> bool {
    |ch: int, x: u16, r: u16| ops.plus16(x, bias[ch], r)
}

pub open spec fn zeros16(n: nat) -> Seq<u16> {
    Seq::new(n, |i: int| 0u16)
}

/// Whether every visit finds its element and its channel's value.
pub fn can_walk(b: &Buf, values: usize) -> (r: bool)
    ensures
        r == walk_fits(*b, values as int),
{
    if b.c == 0 || b.h == 0 || b.w == 0 {
        return true;
    }
    if b.c > values {
        return false;
    }
    match place(b.w, b.c / 8, b.h - 1, (b.c - 1) / 8, b.w - 1, (b.c - 1) % 8, b.v.len()) {
        Some(_) => true,
        None => false,
    }
}

/// A per-channel scale and shift into a new buffer, which is zero where no
/// channel has its element.
pub fn affine<A: Fn(u32, u32) -> u32, M: Fn(u32, u32) -> u32>(
    src: &Buf,
    scale: &Vec<u16>,
    shift: &Vec<u16>,
    ops: &Ops<A, M>,
) -> (r: Buf)
    requires
        ops.total(),
        walk_fits(*src, scale@.len() as int),
        walk_fits(*src, shift@.len() as int),
    ensures
        r.same_shape(src),
        walks_to(*src, zeros16(src.v@.len()), affine_step(ops, scale@, shift@), false, r.v@),
{
    let mut zero: Vec<u16> = Vec::new();
    let mut i: usize = 0;
    while i < src.v.len()
        invariant
            i <= src.v@.len(),
            zero@.len() == i,
            forall|k: int| 0 <= k < i ==> zero@[k] == 0,
        decreases src.v@.len() - i,
    {
        zero.push(0);
        i += 1;
    }
    proof {
        assert(zero@ =~= zeros16(src.v@.len()));
    }
    let step = |ch: usize, x: u16| -> (r: u16)
        requires
            ops.total(),
            ch < scale@.len(),
            ch < shift@.len(),
        ensures
            ops.affine(x, scale@[ch as int], shift@[ch as int], r),
        { ops.affine16(x, scale[ch], shift[ch]) };
    if src.c == 0 || src.h == 0 || src.w == 0 {
        proof {
            nothing_to_visit(*src, zero@, affine_step(ops, scale@, shift@), false);
        }
        return Buf { v: zero, c: src.c, h: src.h, w: src.w };
    }
    let v = walk(src, zero, false, &step);
    proof {
        walk_as(*src, zeros16(src.v@.len()), made_by(step), affine_step(ops, scale@, shift@), false, v@);
    }
    Buf { v, c: src.c, h: src.h, w: src.w }
}

proof fn nothing_to_visit(b: Buf, start: Seq<u16>, f: spec_fn(int, u16, u16) -> bool, in_place: bool)
    requires
        b.c == 0 || b.h == 0 || b.w == 0,
    ensures
        walks_to(b, start, f, in_place, start),
{
    assert(b.c * b.h * b.w == 0) by (nonlinear_arith)
        requires
            b.c == 0 || b.h == 0 || b.w == 0,
    ;
    let tr = seq![start];
    assert(is_walk(b, start, f, in_place, tr, b.c * b.h * b.w));
}

/// A per-channel bias and PReLU, in place.
pub fn prelu_bias<A: Fn(u32, u32) -> u32, M: Fn(u32, u32) -> u32>(
    src: Buf,
    alpha: &Vec<u16>,
    bias: &Vec<u16>,
    ops: &Ops<A, M>,
) -> (r: Buf)
    requires
        ops.total(),
        walk_fits(src, alpha@.len() as int),
        walk_fits(src, bias@.len() as int),
    ensures
        r.same_shape(&src),
        walks_to(src, src.v@, prelu_step(ops, alpha@, bias@), true, r.v@),
{
    let step = |ch: usize, x: u16| -> (r: u16)
        requires
            ops.total(),
            ch < alpha@.len(),
            ch < bias@.len(),
        ensures
            ops.prelu_bias(x, alpha@[ch as int], bias@[ch as int], r),
        { ops.prelu16(x, alpha[ch], bias[ch]) };
    if src.c == 0 || src.h == 0 || src.w == 0 {
        proof {
            nothing_to_visit(src, src.v@, prelu_step(ops, alpha@, bias@), true);
        }
        return src;
    }
    let start = crate::adaface::copy16(&src.v);
    let v = walk(&src, start, true, &step);
    proof {
        walk_as(src, src.v@, made_by(step), prelu_step(ops, alpha@, bias@), true, v@);
    }
    Buf { v, c: src.c, h: src.h, w: src.w }
}

/// A per-channel bias, in place.
pub fn shift<A: Fn(u32, u32) -> u32, M: Fn(u32, u32) -> u32>(src: Buf, bias: &Vec<u16>, ops: &Ops<A, M>) -> (r: Buf)
    requires
        ops.total(),
        walk_fits(src, bias@.len() as int),
    ensures
        r.same_shape(&src),
        walks_to(src, src.v@, bias_step(ops, bias@), true, r.v@),
{
    let step = |ch: usize, x: u16| -> (r: u16)
        requires
            ops.total(),
            ch < bias@.len(),
        ensures
            ops.plus16(x, bias@[ch as int], r),
        { ops.add16(x, bias[ch]) };
    if src.c == 0 || src.h == 0 || src.w == 0 {
        proof {
            nothing_to_visit(src, src.v@, bias_step(ops, bias@), true);
        }
        return src;
    }
    let start = crate::adaface::copy16(&src.v);
    let v = walk(&src, start, true, &step);
    proof {
        walk_as(src, src.v@, made_by(step), bias_step(ops, bias@), true, v@);
    }
    Buf { v, c: src.c, h: src.h, w: src.w }
}

/// Converts a buffer to channel-major single precision.
pub fn flat(b: &Buf) -> (out: Vec<u32>)
    requires
        walk_fits(*b, b.c as int),
        b.c * b.h * b.w <= usize::MAX,
    ensures
        out@ == planar(b),
{
    let n: usize = match mul3(b.c, b.h, b.w) {
        Some(n) => n,
        None => 0,
    };
    let len: usize = b.v.len();
    let ghost want = planar(b);
    let ghost (ci, hi, wi) = (b.c as int, b.h as int, b.w as int);
    let mut out: Vec<u32> = Vec::new();
    let mut i: usize = 0;
    while i < n
        invariant
            walk_fits(*b, b.c as int),
            ci == b.c,
            hi == b.h,
            wi == b.w,
            len == b.v@.len(),
            n == ci * hi * wi,
            want == planar(b),
            i <= n,
            out@ == want.take(i as int),
        decreases n - i,
    {
        proof {
            assert(0 < wi && 0 < hi && 0 < ci) by (nonlinear_arith)
                requires
                    0 <= i < ci * hi * wi,
                    ci >= 0,
                    hi >= 0,
                    wi >= 0,
            ;
            index_parts(i as int, ci * hi, wi);
            index_parts(i as int / wi, ci, hi);
        }
        let x: usize = i % b.w;
        let y: usize = i / b.w % b.h;
        let ch: usize = i / b.w / b.h;
        proof {
            visits_stay_below(*b, y as int, ch as int, x as int);
        }
        let e: u16 = match place(b.w, b.c / 8, y, ch / 8, x, ch % 8, len) {
            Some(at) => b.v[at],
            None => 0,
        };
        let v: u32 = bf16_to_f32(e);
        proof {
            assert(want.take(i + 1) =~= want.take(i as int).push(v));
        }
        out.push(v);
        i += 1;
    }
    proof {
        assert(want.take(n as int) =~= want);
    }
    out
}

// ----------------------------------------------------------------------------
// Whole buffers
// ----------------------------------------------------------------------------

/// The row, channel and column of a visit.
proof fn visit_place(b: Buf, k: int)
    requires
        0 <= k < b.c * b.h * b.w,
    ensures
        b.c > 0 && b.h > 0 && b.w > 0,
        0 <= visit_channel(b, k) < b.c,
        0 <= k / (b.w as int) / (b.c as int) < b.h,
        0 <= k % (b.w as int) < b.w,
        k == (k / (b.w as int) / (b.c as int) * b.c + visit_channel(b, k)) * b.w + k % (b.w as int),
{
    let (c, h, w) = (b.c as int, b.h as int, b.w as int);
    assert(0 < w && 0 < h && 0 < c) by (nonlinear_arith)
        requires
            0 <= k < c * h * w,
            c >= 0,
            h >= 0,
            w >= 0,
    ;
    assert(c * h * w == (h * c) * w) by (nonlinear_arith);
    index_parts(k, h * c, w);
    index_parts(k / w, h, c);
}

/// In whole groups no element is visited twice.
proof fn visits_differ(b: Buf, j: int, k: int)
    requires
        b.whole(),
        0 <= j < b.c * b.h * b.w,
        0 <= k < b.c * b.h * b.w,
        visit(b, j) == visit(b, k),
    ensures
        j == k,
{
    visit_place(b, j);
    visit_place(b, k);
    let (c, w) = (b.c as int, b.w as int);
    tile_at_injective(
        c,
        b.h as int,
        w,
        (visit_channel(b, j), j / w / c, j % w),
        (visit_channel(b, k), k / w / c, k % w),
    );
}

/// An element that no visit from `from` to `to` comes to keeps its value.
proof fn unvisited(
    b: Buf,
    start: Seq<u16>,
    f: spec_fn(int, u16, u16) -> bool,
    in_place: bool,
    tr: Seq<Seq<u16>>,
    n: int,
    i: int,
    from: int,
    to: int,
)
    requires
        is_walk(b, start, f, in_place, tr, n),
        0 <= from <= to <= n,
        forall|k: int| 0 <= k < n ==> 0 <= #[trigger] visit(b, k) < start.len(),
        forall|k: int| from <= k < to ==> #[trigger] visit(b, k) != i,
        0 <= i < start.len(),
    ensures
        tr[to][i] == tr[from][i],
        tr[to].len() == tr[from].len(),
    decreases to - from,
{
    if from < to {
        unvisited(b, start, f, in_place, tr, n, i, from, to - 1);
        lengths(b, start, f, in_place, tr, n, to - 1);
        let k = to - 1;
        assert(tr[k + 1] == tr[k].update(visit(b, k), tr[k + 1][visit(b, k)]));
        assert(visit(b, k) != i);
    }
}

proof fn lengths(
    b: Buf,
    start: Seq<u16>,
    f: spec_fn(int, u16, u16) -> bool,
    in_place: bool,
    tr: Seq<Seq<u16>>,
    n: int,
    k: int,
)
    requires
        is_walk(b, start, f, in_place, tr, n),
        forall|k: int| 0 <= k < n ==> 0 <= #[trigger] visit(b, k) < start.len(),
        0 <= k <= n,
    ensures
        tr[k].len() == start.len(),
    decreases k,
{
    if k > 0 {
        lengths(b, start, f, in_place, tr, n, k - 1);
        assert(tr[k - 1 + 1] == tr[k - 1].update(visit(b, k - 1), tr[k - 1 + 1][visit(b, k - 1)]));
    }
}

/// A buffer of whole groups with all its elements is changed element by
/// element, each by its own channel's values.
pub proof fn a_whole_buffer_changes_by_channel(
    b: Buf,
    start: Seq<u16>,
    f: spec_fn(int, u16, u16) -> bool,
    in_place: bool,
    end: Seq<u16>,
)
    requires
        b.wf(),
        b.whole(),
        start.len() == b.v@.len(),
        in_place ==> start == b.v@,
        walks_to(b, start, f, in_place, end),
    ensures
        end.len() == b.v@.len(),
        forall|i: int| #![trigger end[i]]
            0 <= i < end.len() ==> f(channel_of(i, b.c as int, b.w as int), b.v@[i], end[i]),
{
    let (c, h, w) = (b.c as int, b.h as int, b.w as int);
    let n = c * h * w;
    let tr = choose|tr: Seq<Seq<u16>>| #[trigger] is_walk(b, start, f, in_place, tr, n) && tr.last() == end;
    assert(n >= 0) by (nonlinear_arith)
        requires
            n == c * h * w,
            c >= 0,
            h >= 0,
            w >= 0,
    ;
    assert forall|k: int| 0 <= k < n implies 0 <= #[trigger] visit(b, k) < start.len() by {
        visit_place(b, k);
        let ch = visit_channel(b, k);
        tile_index(h, c / 8, w, k / w / c, ch / 8, k % w, ch % 8);
    }
    lengths(b, start, f, in_place, tr, n, n);
    tile_len_is(c, h, w);
    assert forall|i: int| #![trigger end[i]] 0 <= i < end.len() implies f(channel_of(i, c, w), b.v@[i], end[i]) by {
        tile_parts(i, h, c / 8, w);
        let (y, ch, x) = (y_of(i, w, c / 8), channel_of(i, c, w), x_of(i, w));
        let k = (y * c + ch) * w + x;
        visit_parts(b, y, ch, x);
        index_bound(y, ch, h, c);
        index_bound(y * c + ch, x, h * c, w);
        assert((h * c) * w == n) by (nonlinear_arith)
            requires
                n == c * h * w,
        ;
        assert(visit(b, k) == i);
        assert forall|j: int| 0 <= j < k implies #[trigger] visit(b, j) != i by {
            if visit(b, j) == i {
                visits_differ(b, j, k);
            }
        }
        assert forall|j: int| k + 1 <= j < n implies #[trigger] visit(b, j) != i by {
            if visit(b, j) == i {
                visits_differ(b, j, k);
            }
        }
        unvisited(b, start, f, in_place, tr, n, i, 0, k);
        unvisited(b, start, f, in_place, tr, n, i, k + 1, n);
        assert(f(
            visit_channel(b, k),
            if in_place {
                tr[k][i]
            } else {
                b.v@[i]
            },
            tr[k + 1][i],
        ));
    }
}

} // verus!
