//! What the operations of a recorded plan compute: every element of a buffer
//! after an operation, written out over the elements before it and the files
//! the operation names.

use crate::adaface::RunView;
use crate::adaface_laws::adds_product;
use crate::arith::{index_bound, split_index};
use crate::bf16::{narrow_canonical, wide};
use crate::manifest::joined;
use crate::ir_plan::{
    conv_end, conv_keys, conv_ready, conv_run, head_end, op_to, After, CacheView, ConvKeys, Error, Host, OpView,
};
use crate::plan_tiles::{a_whole_buffer_changes_by_channel, affine_step, bias_step, prelu_step, zeros16};
use crate::tiled::{channel_at, crop_at, planar, slice_at, sliced, subsample_at, tile_at, tile_index, Buf, Ops};
use vstd::prelude::*;

verus! {

proof fn names_differ()
    ensures
        "AFFINE"@ != "INPUT"@ && "AFFINE"@ != "CONV"@,
        "PRELU_BIAS"@ != "INPUT"@ && "PRELU_BIAS"@ != "CONV"@ && "PRELU_BIAS"@ != "AFFINE"@,
        "BIAS"@ != "INPUT"@ && "BIAS"@ != "CONV"@ && "BIAS"@ != "AFFINE"@ && "BIAS"@ != "PRELU_BIAS"@,
        "SUBSAMPLE"@ != "INPUT"@ && "SUBSAMPLE"@ != "CONV"@ && "SUBSAMPLE"@ != "AFFINE"@ && "SUBSAMPLE"@ != "PRELU_BIAS"@
            && "SUBSAMPLE"@ != "BIAS"@,
        "ADD"@ != "INPUT"@ && "ADD"@ != "CONV"@ && "ADD"@ != "AFFINE"@ && "ADD"@ != "PRELU_BIAS"@ && "ADD"@ != "BIAS"@
            && "ADD"@ != "SUBSAMPLE"@,
        "HEAD"@ != "INPUT"@ && "HEAD"@ != "CONV"@ && "HEAD"@ != "AFFINE"@ && "HEAD"@ != "PRELU_BIAS"@ && "HEAD"@ != "BIAS"@
            && "HEAD"@ != "SUBSAMPLE"@ && "HEAD"@ != "ADD"@,
        "CONV"@ != "INPUT"@,
{
    reveal_strlit("INPUT");
    reveal_strlit("CONV");
    reveal_strlit("AFFINE");
    reveal_strlit("PRELU_BIAS");
    reveal_strlit("BIAS");
    reveal_strlit("SUBSAMPLE");
    reveal_strlit("ADD");
    reveal_strlit("HEAD");
    assert("AFFINE"@[0] == 'A' && "AFFINE"@[1] == 'F');
    assert("PRELU_BIAS"@[0] == 'P');
    assert("BIAS"@[0] == 'B');
    assert("SUBSAMPLE"@[0] == 'S');
    assert("ADD"@[0] == 'A' && "ADD"@[1] == 'D');
    assert("HEAD"@[0] == 'H');
    assert("INPUT"@[0] == 'I');
    assert("CONV"@[0] == 'C');
}

/// After a `PRELU_BIAS` every element is `t`, the sum of what it was and the
/// channel's value in the file `bias` rounded to bfloat16, where `t` is not
/// below zero, and the channel's value in the file `alpha` times `t`, rounded,
/// where it is.
pub proof fn a_prelu_adds_the_bias_and_slopes_by_alpha<
    A: Fn(u32, u32) -> u32,
    M: Fn(u32, u32) -> u32,
    E: Fn(&String, &String, &String, &String) -> Result<(), Error>,
    D: Fn(&String, &Vec<u16>, &Vec<u16>, usize) -> Result<Vec<u16>, Error>,
    B: Fn(&String) -> Result<Vec<u16>, Error>,
    F: Fn(&String) -> Result<Vec<u32>, Error>,
>(
    ops: &Ops<A, M>,
    host: &Host<E, D, B, F>,
    dir: Seq<char>,
    given: Option<Seq<u16>>,
    o: OpView,
    x: RunView,
    c: CacheView,
    y: RunView,
    d: CacheView,
    buf: u32,
    alpha: Seq<char>,
    bias: Seq<char>,
    ch: int,
    row: int,
    col: int,
)
    requires
        o.name == "PRELU_BIAS"@,
        o.id("buf"@) == Ok::<u32, Seq<char>>(buf),
        o.gets("alpha"@) == Ok::<Seq<char>, Seq<char>>(alpha),
        o.gets("bias"@) == Ok::<Seq<char>, Seq<char>>(bias),
        op_to(ops, host, dir, given, o, x, c, After { r: Ok(y), cache: d }),
        x.bufs[buf].wf(),
        x.bufs[buf].whole(),
        x.bufs[buf].holds(ch, row, col),
    ensures
        exists|s: u32|
            {
                let t = wide(narrow_canonical(s));
                &&& #[trigger] call_ensures(
                    ops.add,
                    (wide(x.bufs[buf].at(ch, row, col)), wide(d.halves[bias][ch])),
                    s,
                )
                &&& t > 0x8000_0000 && t <= 0xff80_0000 ==> exists|p: u32|
                    #[trigger] call_ensures(ops.mul, (wide(d.halves[alpha][ch]), t), p) && y.bufs[buf].at(
                        ch,
                        row,
                        col,
                    ) == narrow_canonical(p)
                &&& !(t > 0x8000_0000 && t <= 0xff80_0000) ==> y.bufs[buf].at(ch, row, col) == narrow_canonical(t)
            },
        y.bufs[buf].same_shape(&x.bufs[buf]),
        forall|id: u32| id != buf && x.bufs.contains_key(id) ==> y.bufs.contains_key(id) && #[trigger] y.bufs[id] == x.bufs[id],
{
    names_differ();
    let (cn, h, w) = (x.bufs[buf].c as int, x.bufs[buf].h as int, x.bufs[buf].w as int);
    tile_index(h, cn / 8, w, row, ch / 8, col, ch % 8);
    channel_at(cn, h, w, ch, row, col);
    let i = tile_at(cn, w, ch, row, col);
    let src = x.bufs[buf];
    let b = y.bufs[buf];
    let f = prelu_step(ops, d.halves[alpha], d.halves[bias]);
    a_whole_buffer_changes_by_channel(src, src.v@, f, true, b.v@);
    assert(f(ch, src.v@[i], b.v@[i]));
    assert(ops.prelu_bias(src.v@[i], d.halves[alpha][ch], d.halves[bias][ch], b.v@[i]));
}

/// After an `AFFINE` every element is what it was times the channel's value in
/// the file `scale`, plus its value in the file `shift`, rounded to bfloat16.
pub proof fn an_affine_scales_and_shifts<
    A: Fn(u32, u32) -> u32,
    M: Fn(u32, u32) -> u32,
    E: Fn(&String, &String, &String, &String) -> Result<(), Error>,
    D: Fn(&String, &Vec<u16>, &Vec<u16>, usize) -> Result<Vec<u16>, Error>,
    B: Fn(&String) -> Result<Vec<u16>, Error>,
    F: Fn(&String) -> Result<Vec<u32>, Error>,
>(
    ops: &Ops<A, M>,
    host: &Host<E, D, B, F>,
    dir: Seq<char>,
    given: Option<Seq<u16>>,
    o: OpView,
    x: RunView,
    c: CacheView,
    y: RunView,
    d: CacheView,
    from: u32,
    to: u32,
    scale: Seq<char>,
    shift: Seq<char>,
    ch: int,
    row: int,
    col: int,
)
    requires
        o.name == "AFFINE"@,
        o.id("in"@) == Ok::<u32, Seq<char>>(from),
        o.id("out"@) == Ok::<u32, Seq<char>>(to),
        o.gets("scale"@) == Ok::<Seq<char>, Seq<char>>(scale),
        o.gets("shift"@) == Ok::<Seq<char>, Seq<char>>(shift),
        op_to(ops, host, dir, given, o, x, c, After { r: Ok(y), cache: d }),
        x.bufs[from].wf(),
        x.bufs[from].whole(),
        x.bufs[from].holds(ch, row, col),
    ensures
        exists|p: u32, s: u32|
            {
                &&& #[trigger] call_ensures(
                    ops.mul,
                    (wide(x.bufs[from].at(ch, row, col)), wide(d.halves[scale][ch])),
                    p,
                )
                &&& #[trigger] call_ensures(ops.add, (p, wide(d.halves[shift][ch])), s)
                &&& y.bufs[to].at(ch, row, col) == narrow_canonical(s)
            },
        y.bufs[to].same_shape(&x.bufs[from]),
        forall|id: u32| id != to && x.bufs.contains_key(id) ==> y.bufs.contains_key(id) && #[trigger] y.bufs[id] == x.bufs[id],
{
    names_differ();
    let (cn, h, w) = (x.bufs[from].c as int, x.bufs[from].h as int, x.bufs[from].w as int);
    tile_index(h, cn / 8, w, row, ch / 8, col, ch % 8);
    channel_at(cn, h, w, ch, row, col);
    let i = tile_at(cn, w, ch, row, col);
    let src = x.bufs[from];
    let b = y.bufs[to];
    let f = affine_step(ops, d.halves[scale], d.halves[shift]);
    a_whole_buffer_changes_by_channel(src, zeros16(src.v@.len()), f, false, b.v@);
    assert(f(ch, src.v@[i], b.v@[i]));
    assert(ops.affine(src.v@[i], d.halves[scale][ch], d.halves[shift][ch], b.v@[i]));
}

/// After a `BIAS` every element is what it was plus the channel's value in the
/// file `bias`, rounded to bfloat16.
pub proof fn a_bias_is_added<
    A: Fn(u32, u32) -> u32,
    M: Fn(u32, u32) -> u32,
    E: Fn(&String, &String, &String, &String) -> Result<(), Error>,
    D: Fn(&String, &Vec<u16>, &Vec<u16>, usize) -> Result<Vec<u16>, Error>,
    B: Fn(&String) -> Result<Vec<u16>, Error>,
    F: Fn(&String) -> Result<Vec<u32>, Error>,
>(
    ops: &Ops<A, M>,
    host: &Host<E, D, B, F>,
    dir: Seq<char>,
    given: Option<Seq<u16>>,
    o: OpView,
    x: RunView,
    c: CacheView,
    y: RunView,
    d: CacheView,
    buf: u32,
    bias: Seq<char>,
    ch: int,
    row: int,
    col: int,
)
    requires
        o.name == "BIAS"@,
        o.id("buf"@) == Ok::<u32, Seq<char>>(buf),
        o.gets("bias"@) == Ok::<Seq<char>, Seq<char>>(bias),
        op_to(ops, host, dir, given, o, x, c, After { r: Ok(y), cache: d }),
        x.bufs[buf].wf(),
        x.bufs[buf].whole(),
        x.bufs[buf].holds(ch, row, col),
    ensures
        exists|s: u32| #[trigger]
            call_ensures(ops.add, (wide(x.bufs[buf].at(ch, row, col)), wide(d.halves[bias][ch])), s) && y.bufs[buf].at(
                ch,
                row,
                col,
            ) == narrow_canonical(s),
        y.bufs[buf].same_shape(&x.bufs[buf]),
        forall|id: u32| id != buf && x.bufs.contains_key(id) ==> y.bufs.contains_key(id) && #[trigger] y.bufs[id] == x.bufs[id],
{
    names_differ();
    let (cn, h, w) = (x.bufs[buf].c as int, x.bufs[buf].h as int, x.bufs[buf].w as int);
    tile_index(h, cn / 8, w, row, ch / 8, col, ch % 8);
    channel_at(cn, h, w, ch, row, col);
    let i = tile_at(cn, w, ch, row, col);
    let src = x.bufs[buf];
    let b = y.bufs[buf];
    let f = bias_step(ops, d.halves[bias]);
    a_whole_buffer_changes_by_channel(src, src.v@, f, true, b.v@);
    assert(f(ch, src.v@[i], b.v@[i]));
    assert(ops.plus16(src.v@[i], d.halves[bias][ch], b.v@[i]));
}

/// After a `SUBSAMPLE` row `r`, column `c` is row `stride * r`, column
/// `stride * c` of what it reads.
pub proof fn a_subsample_strides<
    A: Fn(u32, u32) -> u32,
    M: Fn(u32, u32) -> u32,
    E: Fn(&String, &String, &String, &String) -> Result<(), Error>,
    D: Fn(&String, &Vec<u16>, &Vec<u16>, usize) -> Result<Vec<u16>, Error>,
    B: Fn(&String) -> Result<Vec<u16>, Error>,
    F: Fn(&String) -> Result<Vec<u32>, Error>,
>(
    ops: &Ops<A, M>,
    host: &Host<E, D, B, F>,
    dir: Seq<char>,
    given: Option<Seq<u16>>,
    o: OpView,
    x: RunView,
    c: CacheView,
    y: RunView,
    d: CacheView,
    from: u32,
    to: u32,
    stride: u64,
    ch: int,
    row: int,
    col: int,
)
    requires
        o.name == "SUBSAMPLE"@,
        o.id("in"@) == Ok::<u32, Seq<char>>(from),
        o.id("out"@) == Ok::<u32, Seq<char>>(to),
        o.size("stride"@) == Ok::<u64, Seq<char>>(stride),
        op_to(ops, host, dir, given, o, x, c, After { r: Ok(y), cache: d }),
        x.bufs[from].wf(),
        x.bufs[from].whole(),
        stride > 0,
        0 <= ch < x.bufs[from].c,
        0 <= row < x.bufs[from].h as int / stride as int,
        0 <= col < x.bufs[from].w as int / stride as int,
    ensures
        y.bufs[to].c == x.bufs[from].c,
        y.bufs[to].h == x.bufs[from].h as int / stride as int,
        y.bufs[to].w == x.bufs[from].w as int / stride as int,
        y.bufs[to].at(ch, row, col) == x.bufs[from].at(ch, stride * row, stride * col),
        forall|id: u32| id != to && x.bufs.contains_key(id) ==> y.bufs.contains_key(id) && #[trigger] y.bufs[id] == x.bufs[id],
        d == c,
{
    names_differ();
    let (cn, h, w) = (x.bufs[from].c as int, x.bufs[from].h as int, x.bufs[from].w as int);
    let (oh, ow) = (h / stride as int, w / stride as int);
    assert(0 <= oh <= h && 0 <= ow <= w) by (nonlinear_arith)
        requires
            h >= 0,
            w >= 0,
            stride > 0,
            oh == h / stride as int,
            ow == w / stride as int,
    ;
    assert(cn * oh * ow <= cn * h * w) by (nonlinear_arith)
        requires
            0 <= oh <= h,
            0 <= ow <= w,
            cn >= 0,
    ;
    assert(y.bufs[to].wf());
    subsample_at(&x.bufs[from], stride as int, &y.bufs[to], ch, row, col);
}

/// After an `ADD` every element is the sum of the two buffers' elements of
/// that channel, row and column, rounded to bfloat16.
pub proof fn an_add_adds_both<
    A: Fn(u32, u32) -> u32,
    M: Fn(u32, u32) -> u32,
    E: Fn(&String, &String, &String, &String) -> Result<(), Error>,
    D: Fn(&String, &Vec<u16>, &Vec<u16>, usize) -> Result<Vec<u16>, Error>,
    B: Fn(&String) -> Result<Vec<u16>, Error>,
    F: Fn(&String) -> Result<Vec<u32>, Error>,
>(
    ops: &Ops<A, M>,
    host: &Host<E, D, B, F>,
    dir: Seq<char>,
    given: Option<Seq<u16>>,
    o: OpView,
    x: RunView,
    c: CacheView,
    y: RunView,
    d: CacheView,
    l: u32,
    r: u32,
    to: u32,
    ch: int,
    row: int,
    col: int,
)
    requires
        o.name == "ADD"@,
        o.id("a"@) == Ok::<u32, Seq<char>>(l),
        o.id("b"@) == Ok::<u32, Seq<char>>(r),
        o.id("out"@) == Ok::<u32, Seq<char>>(to),
        op_to(ops, host, dir, given, o, x, c, After { r: Ok(y), cache: d }),
        x.bufs[l].wf(),
        x.bufs[l].whole(),
        x.bufs[r].wf(),
        x.bufs[r].same_shape(&x.bufs[l]),
        x.bufs[l].holds(ch, row, col),
    ensures
        exists|s: u32| #[trigger]
            call_ensures(ops.add, (wide(x.bufs[l].at(ch, row, col)), wide(x.bufs[r].at(ch, row, col))), s) && y.bufs[to].at(
                ch,
                row,
                col,
            ) == narrow_canonical(s),
        y.bufs[to].same_shape(&x.bufs[l]),
        forall|id: u32| id != to && x.bufs.contains_key(id) ==> y.bufs.contains_key(id) && #[trigger] y.bufs[id] == x.bufs[id],
        d == c,
{
    names_differ();
    let (cn, h, w) = (x.bufs[l].c as int, x.bufs[l].h as int, x.bufs[l].w as int);
    tile_index(h, cn / 8, w, row, ch / 8, col, ch % 8);
    let i = tile_at(cn, w, ch, row, col);
    let b = y.bufs[to];
    assert(ops.plus16(x.bufs[l].v@[i], x.bufs[r].v@[i], b.v@[i]));
    let (p, q) = (x.bufs[l].at(ch, row, col), x.bufs[r].at(ch, row, col));
    assert(p == x.bufs[l].v@[i] && q == x.bufs[r].v@[i] && b.at(ch, row, col) == b.v@[i]);
    let s = choose|s: u32| #[trigger] ops.sum(wide(p), wide(q), s) && b.v@[i] == narrow_canonical(s);
    assert(call_ensures(ops.add, (wide(p), wide(q)), s));
}

/// The sums that a dot product goes through: from the bias on, the product of
/// every element of `b` with its weight in column `j` added in turn.
pub open spec fn running_sums<A: Fn(u32, u32) -> u32, M: Fn(u32, u32) -> u32>(
    ops: &Ops<A, M>,
    b: Buf,
    weights: Seq<u32>,
    n: int,
    j: int,
    s: Seq<u32>,
    k: int,
) -> bool {
    forall|ch: int, row: int, col: int| #![trigger b.at(ch, row, col)]
        b.holds(ch, row, col) && (ch * b.h + row) * b.w + col < k ==> {
            let i = (ch * b.h + row) * b.w + col;
            adds_product(ops, wide(b.at(ch, row, col)), weights[i * n + j], s[i], s[i + 1])
        }
}

/// The embedding's component `j` after a `HEAD` is `b2[j]` plus the dot
/// product of the buffer, channel by channel, row by row, with column `j` of
/// the weights `bT`.
pub proof fn a_head_projects<
    A: Fn(u32, u32) -> u32,
    M: Fn(u32, u32) -> u32,
    E: Fn(&String, &String, &String, &String) -> Result<(), Error>,
    D: Fn(&String, &Vec<u16>, &Vec<u16>, usize) -> Result<Vec<u16>, Error>,
    B: Fn(&String) -> Result<Vec<u16>, Error>,
    F: Fn(&String) -> Result<Vec<u32>, Error>,
>(
    ops: &Ops<A, M>,
    host: &Host<E, D, B, F>,
    dir: Seq<char>,
    given: Option<Seq<u16>>,
    o: OpView,
    x: RunView,
    c: CacheView,
    y: RunView,
    d: CacheView,
    from: u32,
    k: u64,
    n: u64,
    bt: Seq<char>,
    b2: Seq<char>,
    j: int,
)
    requires
        o.name == "HEAD"@,
        o.id("in"@) == Ok::<u32, Seq<char>>(from),
        o.size("k"@) == Ok::<u64, Seq<char>>(k),
        o.size("n"@) == Ok::<u64, Seq<char>>(n),
        o.gets("bT"@) == Ok::<Seq<char>, Seq<char>>(bt),
        o.gets("b2"@) == Ok::<Seq<char>, Seq<char>>(b2),
        op_to(ops, host, dir, given, o, x, c, After { r: Ok(y), cache: d }),
        k > 0,
        0 <= j < n,
    ensures
        k == x.bufs[from].c * x.bufs[from].h * x.bufs[from].w,
        y.embed.len() == d.reals[b2].len(),
        exists|s: Seq<u32>|
            {
                &&& s.len() == k + 1
                &&& s[0] == d.reals[b2][j]
                &&& #[trigger] running_sums(ops, x.bufs[from], d.reals[bt], n as int, j, s, k as int)
                &&& s[k as int] == y.embed[j]
            },
        y.bufs == x.bufs,
{
    names_differ();
    let src = x.bufs[from];
    let z = After { r: Ok(y), cache: d };
    assert(head_end(ops, src, d.reals[bt], d.reals[b2], k, n, x, d, z));
    let e = y.embed;
    assert(ops.column(d.reals[b2][j], planar(&src), d.reals[bt], n as int, j, k as int, e[j]));
    column_sums(ops, src, d.reals[bt], n as int, j, d.reals[b2][j], k as int, e[j]);
}

proof fn column_sums<A: Fn(u32, u32) -> u32, M: Fn(u32, u32) -> u32>(
    ops: &Ops<A, M>,
    b: Buf,
    weights: Seq<u32>,
    n: int,
    j: int,
    init: u32,
    k: int,
    r: u32,
)
    requires
        ops.column(init, planar(&b), weights, n, j, k, r),
        0 <= k <= b.c * b.h * b.w,
        0 <= j < n,
    ensures
        exists|s: Seq<u32>|
            s.len() == k + 1 && s[0] == init && #[trigger] running_sums(ops, b, weights, n, j, s, k) && s[k] == r,
    decreases k,
{
    let flat = planar(&b);
    if k == 0 {
        let s = seq![init];
        assert(running_sums(ops, b, weights, n, j, s, 0)) by {
            assert forall|ch: int, row: int, col: int| #![trigger b.at(ch, row, col)]
                b.holds(ch, row, col) && (ch * b.h + row) * b.w + col < 0 implies false by {
                assert((ch * b.h + row) * b.w >= 0) by (nonlinear_arith)
                    requires
                        ch >= 0,
                        row >= 0,
                        b.h >= 0,
                        b.w >= 0,
                ;
            }
        }
    } else {
        let (q, p) = choose|q: u32, p: u32| #![trigger ops.sum(q, p, r)]
            ops.column(init, flat, weights, n, j, k - 1, q) && ops.product(flat[k - 1], weights[(k - 1) * n + j], p) && ops.sum(
                q,
                p,
                r,
            );
        column_sums(ops, b, weights, n, j, init, k - 1, q);
        let t = choose|s: Seq<u32>|
            s.len() == k && s[0] == init && #[trigger] running_sums(ops, b, weights, n, j, s, k - 1) && s[k - 1] == q;
        let s = t.push(r);
        assert(running_sums(ops, b, weights, n, j, s, k)) by {
            assert forall|ch: int, row: int, col: int| #![trigger b.at(ch, row, col)]
                b.holds(ch, row, col) && (ch * b.h + row) * b.w + col < k implies {
                let i = (ch * b.h + row) * b.w + col;
                adds_product(ops, wide(b.at(ch, row, col)), weights[i * n + j], s[i], s[i + 1])
            } by {
                let i = (ch * b.h + row) * b.w + col;
                index_bound(ch, row, b.c as int, b.h as int);
                index_bound(ch * b.h + row, col, b.c * b.h, b.w as int);
                if i < k - 1 {
                    assert(t[i] == s[i] && t[i + 1] == s[i + 1]);
                } else {
                    split_index(ch * b.h + row, col, b.w as int);
                    split_index(ch, row, b.h as int);
                    assert(flat[i] == wide(b.at(ch, row, col)));
                    assert(call_ensures(ops.mul, (wide(b.at(ch, row, col)), weights[i * n + j]), p));
                }
            }
        }
    }
}

/// An `INPUT` is the caller's buffer, of the sizes the operation names; with
/// none, the file it names.
pub proof fn an_input_is_what_was_given<
    A: Fn(u32, u32) -> u32,
    M: Fn(u32, u32) -> u32,
    E: Fn(&String, &String, &String, &String) -> Result<(), Error>,
    D: Fn(&String, &Vec<u16>, &Vec<u16>, usize) -> Result<Vec<u16>, Error>,
    B: Fn(&String) -> Result<Vec<u16>, Error>,
    F: Fn(&String) -> Result<Vec<u32>, Error>,
>(
    ops: &Ops<A, M>,
    host: &Host<E, D, B, F>,
    dir: Seq<char>,
    given: Option<Seq<u16>>,
    o: OpView,
    x: RunView,
    c: CacheView,
    y: RunView,
    d: CacheView,
    buf: u32,
)
    requires
        o.name == "INPUT"@,
        o.id("buf"@) == Ok::<u32, Seq<char>>(buf),
        op_to(ops, host, dir, given, o, x, c, After { r: Ok(y), cache: d }),
    ensures
        y.bufs[buf].c == o.size("c"@)->Ok_0 && y.bufs[buf].h == o.size("h"@)->Ok_0 && y.bufs[buf].w == o.size("w"@)->Ok_0,
        given matches Some(t) ==> y.bufs[buf].v@ == t,
        given is None ==> (o.gets("file"@) matches Ok(f) && d.halves.contains_key(f) && y.bufs[buf].v@ == d.halves[f]),
        forall|id: u32| id != buf && x.bufs.contains_key(id) ==> y.bufs.contains_key(id) && #[trigger] y.bufs[id] == x.bufs[id],
{
}

/// A `CONV` asks the device to make the kernel it names resident and runs it
/// on the channels from group `c0` on of the buffer it reads, zeros beyond its
/// width, with the file of weights it names.
pub proof fn a_conv_runs_its_kernel_on_its_channels<
    A: Fn(u32, u32) -> u32,
    M: Fn(u32, u32) -> u32,
    E: Fn(&String, &String, &String, &String) -> Result<(), Error>,
    D: Fn(&String, &Vec<u16>, &Vec<u16>, usize) -> Result<Vec<u16>, Error>,
    B: Fn(&String) -> Result<Vec<u16>, Error>,
    F: Fn(&String) -> Result<Vec<u32>, Error>,
>(
    ops: &Ops<A, M>,
    host: &Host<E, D, B, F>,
    dir: Seq<char>,
    given: Option<Seq<u16>>,
    o: OpView,
    x: RunView,
    c: CacheView,
    y: RunView,
    d: CacheView,
    k: ConvKeys,
    wt: Seq<char>,
) -> (r: (Seq<u16>, Seq<u16>))
    requires
        o.name == "CONV"@,
        conv_keys(o) == Ok::<ConvKeys, Seq<char>>(k),
        o.gets("wt"@) == Ok::<Seq<char>, Seq<char>>(wt),
        op_to(ops, host, dir, given, o, x, c, After { r: Ok(y), cache: d }),
        x.bufs[k.input].wf(),
        x.bufs[k.input].whole(),
        k.icg % 8 == 0,
        8 * k.c0 + k.icg <= x.bufs[k.input].c,
        x.bufs[k.input].w <= k.wp,
    ensures
        host.made(
            k.xclbin,
            joined(dir, k.xclbin),
            joined(dir, k.insts),
            k.kernel,
            Ok::<(), Error>(()),
        ),
        host.ran(k.xclbin, r.0, d.halves[wt], k.oc * k.oh * k.owp, Ok::<Seq<u16>, Error>(r.1)),
        forall|ch: int, row: int, col: int|
            #![trigger r.0[((row * (k.icg as int / 8) + ch / 8) * k.wp + col) * 8 + ch % 8]]
            0 <= ch < k.icg && 0 <= row < x.bufs[k.input].h && 0 <= col < k.wp ==> r.0[((row * (k.icg as int / 8) + ch / 8) * k.wp
                + col) * 8 + ch % 8] == (if col < x.bufs[k.input].w {
                x.bufs[k.input].at(8 * k.c0 + ch, row, col)
            } else {
                0
            }),
        conv_end(ops, o, k, r.1, x, d, After { r: Ok(y), cache: d }),
{
    names_differ();
    let z = After { r: Ok(y), cache: d };
    let src = x.bufs[k.input];
    let inp = sliced(&src, k.c0 as int, k.icg as int / 8, k.wp as int);
    assert(conv_ready(ops, host, dir, o, k, x, c, z));
    assert(conv_run(ops, host, o, k, d.halves[wt], x, d, z));
    let part = choose|v: Seq<u16>| #[trigger]
        host.ran(k.xclbin, inp, d.halves[wt], k.oc * k.oh * k.owp, Ok::<Seq<u16>, Error>(v)) && conv_end(ops, o, k, v, x, d, z);
    assert forall|ch: int, row: int, col: int|
        #![trigger inp[((row * (k.icg as int / 8) + ch / 8) * k.wp + col) * 8 + ch % 8]]
        0 <= ch < k.icg && 0 <= row < src.h && 0 <= col < k.wp implies inp[((row * (k.icg as int / 8) + ch / 8) * k.wp + col) * 8
        + ch % 8] == (if col < src.w {
        src.at(8 * k.c0 + ch, row, col)
    } else {
        0
    }) by {
        slice_at(&src, k.c0 as int, k.icg as int / 8, k.wp as int, ch, row, col);
    }
    (inp, part)
}

/// The answer to a convolution in one dispatch becomes the buffer it names:
/// each element, rounded, by channel, row and column; columns beyond the
/// buffer's are dropped.
pub proof fn a_conv_s_answer_becomes_its_buffer<A: Fn(u32, u32) -> u32, M: Fn(u32, u32) -> u32>(
    ops: &Ops<A, M>,
    o: OpView,
    k: ConvKeys,
    part: Seq<u16>,
    x: RunView,
    y: RunView,
    c: CacheView,
    ch: int,
    row: int,
    col: int,
)
    requires
        conv_end(ops, o, k, part, x, c, After { r: Ok(y), cache: c }),
        o.geti("first"@) == Ok::<i64, Seq<char>>(1),
        o.geti("last"@) == Ok::<i64, Seq<char>>(1),
        k.oc <= usize::MAX && k.oh <= usize::MAX && k.ow <= usize::MAX && k.owp <= usize::MAX,
        k.oc % 8 == 0,
        k.ow <= k.owp,
        part.len() == k.oc * k.oh * k.owp,
        x.accs.contains_key(k.out) ==> x.accs[k.out].len() == part.len(),
        0 <= ch < k.oc,
        0 <= row < k.oh,
        0 <= col < k.ow,
    ensures
        exists|s: u32| #[trigger]
            call_ensures(
                ops.add,
                (0u32, wide(part[((row * (k.oc as int / 8) + ch / 8) * k.owp + col) * 8 + ch % 8])),
                s,
            ) && y.bufs[k.out].at(ch, row, col) == narrow_canonical(s),
        (y.bufs[k.out].c, y.bufs[k.out].h, y.bufs[k.out].w) == (k.oc as usize, k.oh as usize, k.ow as usize),
{
    let acc = y.accs[k.out];
    crop_at(acc, k.oc as int, k.oh as int, k.owp as int, k.ow as int, ch, row, col);
    tile_index(k.oh as int, k.oc as int / 8, k.owp as int, row, ch / 8, col, ch % 8);
    crate::tiled::tile_len_is(k.oc as int, k.oh as int, k.owp as int);
    let i = tile_at(k.oc as int, k.owp as int, ch, row, col);
    assert(ops.sum(0, wide(part[i]), acc[i]));
}

/// A further dispatch of a convolution adds its part to what the ones before
/// it summed up; one that is not the last changes no buffer.
pub proof fn a_conv_s_parts_add_up<A: Fn(u32, u32) -> u32, M: Fn(u32, u32) -> u32>(
    ops: &Ops<A, M>,
    o: OpView,
    k: ConvKeys,
    part: Seq<u16>,
    x: RunView,
    y: RunView,
    c: CacheView,
    i: int,
)
    requires
        conv_end(ops, o, k, part, x, c, After { r: Ok(y), cache: c }),
        o.geti("first"@) matches Ok(f) && f != 1,
        x.accs.contains_key(k.out),
        0 <= i < x.accs[k.out].len(),
        i < part.len(),
    ensures
        call_ensures(ops.add, (x.accs[k.out][i], wide(part[i])), y.accs[k.out][i]),
        o.geti("last"@) matches Ok(v) && v != 1 ==> y.bufs == x.bufs,
        y.embed == x.embed,
{
    let acc = y.accs[k.out];
    assert(ops.sum(x.accs[k.out][i], wide(part[i]), acc[i]));
}

/// A convolution's keys are the fields of their names.
pub proof fn a_conv_s_keys_are_its_fields(o: OpView, k: ConvKeys)
    requires
        conv_keys(o) == Ok::<ConvKeys, Seq<char>>(k),
    ensures
        o.id("in"@) == Ok::<u32, Seq<char>>(k.input),
        o.id("out"@) == Ok::<u32, Seq<char>>(k.out),
        o.size("c0"@) == Ok::<u64, Seq<char>>(k.c0),
        o.size("icg"@) == Ok::<u64, Seq<char>>(k.icg),
        o.size("oc"@) == Ok::<u64, Seq<char>>(k.oc),
        o.size("oh"@) == Ok::<u64, Seq<char>>(k.oh),
        o.size("ow"@) == Ok::<u64, Seq<char>>(k.ow),
        o.size("owp"@) == Ok::<u64, Seq<char>>(k.owp),
        o.size("wp"@) == Ok::<u64, Seq<char>>(k.wp),
        o.gets("xclbin"@) == Ok::<Seq<char>, Seq<char>>(k.xclbin),
        o.gets("insts"@) == Ok::<Seq<char>, Seq<char>>(k.insts),
        o.gets("kernel"@) == Ok::<Seq<char>, Seq<char>>(k.kernel),
{
}

} // verus!
