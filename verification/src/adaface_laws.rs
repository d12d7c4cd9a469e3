//! What the steps of a face embedding compute: every element of a buffer
//! after a step, written out over the elements before it and the tensors the
//! step names.

use crate::adaface::{conv_to, dispatch_args, host_to, stem_input, RunView, Sink};
use crate::adaface_steps::{step_of, Buffers, ConvView, StepView};
use crate::arith::{index_bound, split_index};
use crate::bf16::{narrow_canonical, wide};
use crate::manifest::{ManifestView, RecordView};
use crate::store::{DType, StoreView};
use crate::tiled::{an_image_is_tiled_by_channel, channel_at, crop_at, slice_at, subsample_at, tile_at, tile_index, Buf, Ops};
use vstd::prelude::*;

verus! {

/// Element `i` of the bfloat16 tensor `name`: its two bytes, the lower one
/// first.
pub open spec fn half_at(st: StoreView, name: Seq<char>, i: int) -> int {
    let bytes = st.typed(name, DType::Bf16)->Ok_0;
    bytes[2 * i] + 256 * bytes[2 * i + 1]
}

/// Element `i` of the single-precision tensor `name`, its four bytes.
pub open spec fn real_at(st: StoreView, name: Seq<char>, i: int) -> int {
    let bytes = st.typed(name, DType::F32)->Ok_0;
    bytes[4 * i] + 256 * bytes[4 * i + 1] + 65536 * bytes[4 * i + 2] + 16777216 * bytes[4 * i + 3]
}

/// Tensor `name` has `n` bfloat16 elements.
pub open spec fn has_halves(st: StoreView, name: Seq<char>, n: int) -> bool {
    st.typed(name, DType::Bf16) matches Ok(b) && b.len() >= 2 * n
}

/// Tensor `name` has `n` single-precision elements.
pub open spec fn has_reals(st: StoreView, name: Seq<char>, n: int) -> bool {
    st.typed(name, DType::F32) matches Ok(b) && b.len() >= 4 * n
}

/// After a `prelu_bias` step every element is `t`, the sum of what it was and
/// the channel's bias rounded to bfloat16, where `t` is not below zero, and
/// the channel's `alpha` times `t`, rounded, where it is.
pub proof fn a_prelu_step_adds_the_bias_and_slopes_by_alpha<A: Fn(u32, u32) -> u32, M: Fn(u32, u32) -> u32>(
    ops: &Ops<A, M>,
    st: StoreView,
    input: Option<Seq<u16>>,
    buf: u32,
    alpha: Seq<char>,
    bias: Seq<char>,
    x: RunView,
    y: RunView,
    ch: int,
    row: int,
    col: int,
)
    requires
        host_to(ops, st, input, StepView::PreluBias { buf, alpha, bias }, x, y),
        x.bufs[buf].wf(),
        x.bufs[buf].whole(),
        x.bufs[buf].holds(ch, row, col),
        has_halves(st, alpha, x.bufs[buf].c as int),
        has_halves(st, bias, x.bufs[buf].c as int),
    ensures
        exists|s: u32|
            {
                let t = wide(narrow_canonical(s));
                &&& #[trigger] call_ensures(
                    ops.add,
                    (wide(x.bufs[buf].at(ch, row, col)), wide(half_at(st, bias, ch) as u16)),
                    s,
                )
                &&& t > 0x8000_0000 && t <= 0xff80_0000 ==> exists|p: u32|
                    #[trigger] call_ensures(ops.mul, (wide(half_at(st, alpha, ch) as u16), t), p) && y.bufs[buf].at(
                        ch,
                        row,
                        col,
                    ) == narrow_canonical(p)
                &&& !(t > 0x8000_0000 && t <= 0xff80_0000) ==> y.bufs[buf].at(ch, row, col) == narrow_canonical(t)
            },
        y.bufs[buf].same_shape(&x.bufs[buf]),
        forall|id: u32| id != buf && x.bufs.contains_key(id) ==> y.bufs.contains_key(id) && #[trigger] y.bufs[id] == x.bufs[id],
{
    let (c, h, w) = (x.bufs[buf].c as int, x.bufs[buf].h as int, x.bufs[buf].w as int);
    tile_index(h, c / 8, w, row, ch / 8, col, ch % 8);
    channel_at(c, h, w, ch, row, col);
    let i = tile_at(c, w, ch, row, col);
    let b = y.bufs[buf];
    assert(ops.prelu_bias(x.bufs[buf].v@[i], half_at(st, alpha, ch) as u16, half_at(st, bias, ch) as u16, b.v@[i]));
}

/// After an `affine` step every element is what it was times the channel's
/// `scale`, plus its `shift`, rounded to bfloat16.
pub proof fn an_affine_step_scales_and_shifts<A: Fn(u32, u32) -> u32, M: Fn(u32, u32) -> u32>(
    ops: &Ops<A, M>,
    st: StoreView,
    input: Option<Seq<u16>>,
    from: u32,
    out: u32,
    scale: Seq<char>,
    shift: Seq<char>,
    x: RunView,
    y: RunView,
    ch: int,
    row: int,
    col: int,
)
    requires
        host_to(ops, st, input, StepView::Affine { input: from, out, scale, shift }, x, y),
        x.bufs[from].wf(),
        x.bufs[from].whole(),
        x.bufs[from].holds(ch, row, col),
        has_halves(st, scale, x.bufs[from].c as int),
        has_halves(st, shift, x.bufs[from].c as int),
    ensures
        exists|p: u32, s: u32|
            {
                &&& #[trigger] call_ensures(
                    ops.mul,
                    (wide(x.bufs[from].at(ch, row, col)), wide(half_at(st, scale, ch) as u16)),
                    p,
                )
                &&& #[trigger] call_ensures(ops.add, (p, wide(half_at(st, shift, ch) as u16)), s)
                &&& y.bufs[out].at(ch, row, col) == narrow_canonical(s)
            },
        y.bufs[out].same_shape(&x.bufs[from]),
{
    let (c, h, w) = (x.bufs[from].c as int, x.bufs[from].h as int, x.bufs[from].w as int);
    tile_index(h, c / 8, w, row, ch / 8, col, ch % 8);
    channel_at(c, h, w, ch, row, col);
    let i = tile_at(c, w, ch, row, col);
    let b = y.bufs[out];
    assert(ops.affine(x.bufs[from].v@[i], half_at(st, scale, ch) as u16, half_at(st, shift, ch) as u16, b.v@[i]));
}

/// After a `bias` step every element is what it was plus the channel's bias,
/// rounded to bfloat16.
pub proof fn a_bias_step_adds_the_bias<A: Fn(u32, u32) -> u32, M: Fn(u32, u32) -> u32>(
    ops: &Ops<A, M>,
    st: StoreView,
    input: Option<Seq<u16>>,
    buf: u32,
    bias: Seq<char>,
    x: RunView,
    y: RunView,
    ch: int,
    row: int,
    col: int,
)
    requires
        host_to(ops, st, input, StepView::Bias { buf, bias }, x, y),
        x.bufs[buf].wf(),
        x.bufs[buf].whole(),
        x.bufs[buf].holds(ch, row, col),
        has_halves(st, bias, x.bufs[buf].c as int),
    ensures
        exists|s: u32| #[trigger]
            call_ensures(ops.add, (wide(x.bufs[buf].at(ch, row, col)), wide(half_at(st, bias, ch) as u16)), s) && y.bufs[buf].at(
                ch,
                row,
                col,
            ) == narrow_canonical(s),
        y.bufs[buf].same_shape(&x.bufs[buf]),
{
    let (c, h, w) = (x.bufs[buf].c as int, x.bufs[buf].h as int, x.bufs[buf].w as int);
    tile_index(h, c / 8, w, row, ch / 8, col, ch % 8);
    channel_at(c, h, w, ch, row, col);
    let i = tile_at(c, w, ch, row, col);
    let b = y.bufs[buf];
    assert(ops.plus16(x.bufs[buf].v@[i], half_at(st, bias, ch) as u16, b.v@[i]));
}

/// After an `add` step every element is the sum of the two buffers' elements
/// of that channel, row and column, rounded to bfloat16.
pub proof fn an_add_step_adds_both<A: Fn(u32, u32) -> u32, M: Fn(u32, u32) -> u32>(
    ops: &Ops<A, M>,
    st: StoreView,
    input: Option<Seq<u16>>,
    a: u32,
    b: u32,
    out: u32,
    x: RunView,
    y: RunView,
    ch: int,
    row: int,
    col: int,
)
    requires
        host_to(ops, st, input, StepView::Add { a, b, out }, x, y),
        x.bufs[a].wf(),
        x.bufs[a].whole(),
        x.bufs[b].same_shape(&x.bufs[a]),
        x.bufs[a].holds(ch, row, col),
    ensures
        exists|s: u32| #[trigger]
            call_ensures(ops.add, (wide(x.bufs[a].at(ch, row, col)), wide(x.bufs[b].at(ch, row, col))), s) && y.bufs[out].at(
                ch,
                row,
                col,
            ) == narrow_canonical(s),
        y.bufs[out].same_shape(&x.bufs[a]),
{
    let (c, h, w) = (x.bufs[a].c as int, x.bufs[a].h as int, x.bufs[a].w as int);
    tile_index(h, c / 8, w, row, ch / 8, col, ch % 8);
    let i = tile_at(c, w, ch, row, col);
    let r = y.bufs[out];
    assert(ops.plus16(x.bufs[a].v@[i], x.bufs[b].v@[i], r.v@[i]));
    let (p, q) = (x.bufs[a].at(ch, row, col), x.bufs[b].at(ch, row, col));
    assert(p == x.bufs[a].v@[i] && q == x.bufs[b].v@[i] && r.at(ch, row, col) == r.v@[i]);
    let s = choose|s: u32| #[trigger] ops.sum(wide(p), wide(q), s) && r.v@[i] == narrow_canonical(s);
    assert(call_ensures(ops.add, (wide(p), wide(q)), s));
}

/// After a `subsample` step row `r`, column `c` is row `stride * r`, column
/// `stride * c` of what it reads.
pub proof fn a_subsample_step_strides<A: Fn(u32, u32) -> u32, M: Fn(u32, u32) -> u32>(
    ops: &Ops<A, M>,
    st: StoreView,
    input: Option<Seq<u16>>,
    from: u32,
    out: u32,
    stride: usize,
    x: RunView,
    y: RunView,
    ch: int,
    row: int,
    col: int,
)
    requires
        host_to(ops, st, input, StepView::Subsample { input: from, out, stride }, x, y),
        x.bufs[from].wf(),
        x.bufs[from].whole(),
        stride > 0,
        0 <= ch < x.bufs[from].c,
        0 <= row < x.bufs[from].h as int / stride as int,
        0 <= col < x.bufs[from].w as int / stride as int,
    ensures
        y.bufs[out].c == x.bufs[from].c,
        y.bufs[out].h == x.bufs[from].h as int / stride as int,
        y.bufs[out].w == x.bufs[from].w as int / stride as int,
        y.bufs[out].at(ch, row, col) == x.bufs[from].at(ch, stride * row, stride * col),
{
    subsample_at(&x.bufs[from], stride as int, &y.bufs[out], ch, row, col);
}

/// `after` is `before` plus the product of `a` and `b`.
pub open spec fn adds_product<A: Fn(u32, u32) -> u32, M: Fn(u32, u32) -> u32>(
    ops: &Ops<A, M>,
    a: u32,
    b: u32,
    before: u32,
    after: u32,
) -> bool {
    exists|p: u32| #[trigger] call_ensures(ops.mul, (a, b), p) && call_ensures(ops.add, (before, p), after)
}

/// The sums that a dot product goes through: from `b2[j]`, the product of
/// every input with its weight in column `j` added in turn.
pub open spec fn dot_sums<A: Fn(u32, u32) -> u32, M: Fn(u32, u32) -> u32>(
    ops: &Ops<A, M>,
    st: StoreView,
    b: Buf,
    n: int,
    bt: Seq<char>,
    j: int,
    s: Seq<u32>,
    k: int,
) -> bool {
    forall|ch: int, row: int, col: int| #![trigger b.at(ch, row, col)]
        b.holds(ch, row, col) && (ch * b.h + row) * b.w + col < k ==> {
            let i = (ch * b.h + row) * b.w + col;
            adds_product(ops, wide(b.at(ch, row, col)), wide(half_at(st, bt, i * n + j) as u16), s[i], s[i + 1])
        }
}

/// The embedding's component `j` is `b2[j]` plus the dot product of the
/// buffer, channel by channel, row by row, with column `j` of the weights.
pub proof fn a_head_step_projects<A: Fn(u32, u32) -> u32, M: Fn(u32, u32) -> u32>(
    ops: &Ops<A, M>,
    st: StoreView,
    input: Option<Seq<u16>>,
    from: u32,
    k: usize,
    n: usize,
    bt: Seq<char>,
    b2: Seq<char>,
    x: RunView,
    y: RunView,
    j: int,
)
    requires
        host_to(ops, st, input, StepView::Head { input: from, k, n, bt, b2 }, x, y),
        x.bufs[from].wf(),
        x.bufs[from].whole(),
        k == x.bufs[from].c * x.bufs[from].h * x.bufs[from].w,
        has_halves(st, bt, k * n),
        has_reals(st, b2, n as int),
        0 <= j < n,
    ensures
        y.embed.len() == n,
        exists|s: Seq<u32>|
            {
                &&& s.len() == k + 1
                &&& s[0] == real_at(st, b2, j)
                &&& #[trigger] dot_sums(ops, st, x.bufs[from], n as int, bt, j, s, k as int)
                &&& s[k as int] == y.embed[j]
            },
{
    let e = y.embed;
    let flat = crate::tiled::planar(&x.bufs[from]);
    let bits = crate::gather::widened(crate::adaface::tensor16(st, bt));
    let init = crate::adaface::tensor32(st, b2)[j];
    assert(ops.column(init, flat, bits, n as int, j, k as int, e[j]));
    column_sums(ops, st, x.bufs[from], n as int, bt, j, init, k as int, e[j]);
}

proof fn column_sums<A: Fn(u32, u32) -> u32, M: Fn(u32, u32) -> u32>(
    ops: &Ops<A, M>,
    st: StoreView,
    b: Buf,
    n: int,
    bt: Seq<char>,
    j: int,
    init: u32,
    k: int,
    r: u32,
)
    requires
        ops.column(init, crate::tiled::planar(&b), crate::gather::widened(crate::adaface::tensor16(st, bt)), n, j, k, r),
        0 <= k <= b.c * b.h * b.w,
        has_halves(st, bt, b.c * b.h * b.w * n),
        0 <= j < n,
    ensures
        exists|s: Seq<u32>|
            s.len() == k + 1 && s[0] == init && #[trigger] dot_sums(ops, st, b, n, bt, j, s, k) && s[k] == r,
    decreases k,
{
    let flat = crate::tiled::planar(&b);
    let bits = crate::gather::widened(crate::adaface::tensor16(st, bt));
    if k == 0 {
        let s = seq![init];
        assert(dot_sums(ops, st, b, n, bt, j, s, 0)) by {
            assert forall|ch: int, row: int, col: int| #![trigger b.at(ch, row, col)]
                b.holds(ch, row, col) && (ch * b.h + row) * b.w + col < 0 implies false by {
                assert((ch * b.h + row) * b.w >= 0) by (nonlinear_arith)
                    requires
                        ch >= 0,
                        row >= 0,
                        b.h >= 0,
                        b.w >= 0,
                ;
            }
        }
    } else {
        let (q, p) = choose|q: u32, p: u32| #![trigger ops.sum(q, p, r)]
            ops.column(init, flat, bits, n, j, k - 1, q) && ops.product(flat[k - 1], bits[(k - 1) * n + j], p) && ops.sum(q, p, r);
        column_sums(ops, st, b, n, bt, j, init, k - 1, q);
        let t = choose|s: Seq<u32>|
            s.len() == k && s[0] == init && #[trigger] dot_sums(ops, st, b, n, bt, j, s, k - 1) && s[k - 1] == q;
        let s = t.push(r);
        assert(dot_sums(ops, st, b, n, bt, j, s, k)) by {
            assert forall|ch: int, row: int, col: int| #![trigger b.at(ch, row, col)]
                b.holds(ch, row, col) && (ch * b.h + row) * b.w + col < k implies {
                let i = (ch * b.h + row) * b.w + col;
                adds_product(ops, wide(b.at(ch, row, col)), wide(half_at(st, bt, i * n + j) as u16), s[i], s[i + 1])
            } by {
                let i = (ch * b.h + row) * b.w + col;
                index_bound(ch, row, b.c as int, b.h as int);
                index_bound(ch * b.h + row, col, b.c * b.h, b.w as int);
                if i < k - 1 {
                    assert(t[i] == s[i] && t[i + 1] == s[i + 1]);
                } else {
                    split_index(ch * b.h + row, col, b.w as int);
                    split_index(ch, row, b.h as int);
                    assert(flat[i] == wide(b.at(ch, row, col)));
                    assert(0 <= i * n + j < b.c * b.h * b.w * n) by (nonlinear_arith)
                        requires
                            0 <= i < b.c * b.h * b.w,
                            0 <= j < n,
                    ;
                    assert(bits[i * n + j] == wide(half_at(st, bt, i * n + j) as u16));
                    assert(call_ensures(ops.mul, (wide(b.at(ch, row, col)), wide(half_at(st, bt, i * n + j) as u16)), p));
                }
            }
        }
    }
}

/// A dispatch gives the device the channels from group `c0` on of the buffer
/// it reads, zeros beyond its width, and the weights it names.
pub proof fn a_dispatch_reads_its_channels(
    st: StoreView,
    x: RunView,
    cv: ConvView,
    inp: Seq<u16>,
    wt: Seq<u16>,
    ch: int,
    row: int,
    col: int,
)
    requires
        dispatch_args(st, x, cv, inp, wt),
        x.bufs[cv.input].wf(),
        x.bufs[cv.input].whole(),
        cv.icg % 8 == 0,
        8 * cv.c0 + cv.icg <= x.bufs[cv.input].c,
        x.bufs[cv.input].w <= cv.wp,
        0 <= ch < cv.icg,
        0 <= row < x.bufs[cv.input].h,
        0 <= col < cv.wp,
    ensures
        inp[((row * (cv.icg as int / 8) + ch / 8) * cv.wp + col) * 8 + ch % 8] == (if col < x.bufs[cv.input].w {
            x.bufs[cv.input].at(8 * cv.c0 + ch, row, col)
        } else {
            0
        }),
        has_halves(st, cv.wt, wt.len() as int) ==> forall|i: int| 0 <= i < wt.len() ==> #[trigger] wt[i] == half_at(st, cv.wt, i),
{
    slice_at(&x.bufs[cv.input], cv.c0 as int, cv.icg as int / 8, cv.wp as int, ch, row, col);
}

/// The device's answer to a convolution in one dispatch is its buffer: each
/// element, rounded, by channel, row and column; columns beyond the buffer's
/// are dropped.
pub proof fn an_answer_becomes_its_buffer<A: Fn(u32, u32) -> u32, M: Fn(u32, u32) -> u32>(
    ops: &Ops<A, M>,
    cv: Sink,
    part: Seq<u16>,
    x: RunView,
    y: RunView,
    ch: int,
    row: int,
    col: int,
)
    requires
        conv_to(ops, cv, part, x, y),
        cv.first,
        cv.last,
        cv.oc % 8 == 0,
        cv.ow <= cv.owp,
        part.len() == cv.oc * cv.oh * cv.owp,
        x.accs.contains_key(cv.out) ==> x.accs[cv.out].len() == part.len(),
        0 <= ch < cv.oc,
        0 <= row < cv.oh,
        0 <= col < cv.ow,
    ensures
        exists|s: u32| #[trigger]
            call_ensures(
                ops.add,
                (0u32, wide(part[((row * (cv.oc as int / 8) + ch / 8) * cv.owp + col) * 8 + ch % 8])),
                s,
            ) && y.bufs[cv.out].at(ch, row, col) == narrow_canonical(s),
{
    let acc = y.accs[cv.out];
    crop_at(acc, cv.oc as int, cv.oh as int, cv.owp as int, cv.ow as int, ch, row, col);
    tile_index(cv.oh as int, cv.oc as int / 8, cv.owp as int, row, ch / 8, col, ch % 8);
    crate::tiled::tile_len_is(cv.oc as int, cv.oh as int, cv.owp as int);
    let i = tile_at(cv.oc as int, cv.owp as int, ch, row, col);
    assert(ops.sum(0, wide(part[i]), acc[i]));
}

/// A further dispatch of a convolution adds its part to what the ones before
/// it summed up; one that is not the last changes no buffer.
pub proof fn dispatches_add_up<A: Fn(u32, u32) -> u32, M: Fn(u32, u32) -> u32>(
    ops: &Ops<A, M>,
    cv: Sink,
    part: Seq<u16>,
    x: RunView,
    y: RunView,
    i: int,
)
    requires
        conv_to(ops, cv, part, x, y),
        !cv.first,
        x.accs.contains_key(cv.out),
        0 <= i < x.accs[cv.out].len(),
        i < part.len(),
    ensures
        call_ensures(ops.add, (x.accs[cv.out][i], wide(part[i])), y.accs[cv.out][i]),
        !cv.last ==> y.bufs == x.bufs,
        y.embed == x.embed,
{
    let acc = y.accs[cv.out];
    assert(ops.sum(x.accs[cv.out][i], wide(part[i]), acc[i]));
}

/// A record's step names the buffers and tensors that its fields do.
pub proof fn steps_name_what_their_records_do(m: ManifestView, st: StoreView, b: Buffers, r: RecordView)
    ensures
        step_of(m, st, b, r) matches Ok(StepView::PreluBias { buf, alpha, bias }) ==> r.get::<u32>("buf"@) == Ok::<u32, Seq<char>>(buf)
            && r.str("alpha"@) == Ok::<Seq<char>, Seq<char>>(alpha) && r.str("bias"@) == Ok::<Seq<char>, Seq<char>>(bias),
        step_of(m, st, b, r) matches Ok(StepView::Affine { input, out, scale, shift }) ==> r.get::<u32>("in"@) == Ok::<u32, Seq<char>>(
            input,
        ) && r.get::<u32>("out"@) == Ok::<u32, Seq<char>>(out) && r.str("scale"@) == Ok::<Seq<char>, Seq<char>>(scale) && r.str(
            "shift"@,
        ) == Ok::<Seq<char>, Seq<char>>(shift),
        step_of(m, st, b, r) matches Ok(StepView::Bias { buf, bias }) ==> r.get::<u32>("buf"@) == Ok::<u32, Seq<char>>(buf) && r.str(
            "bias"@,
        ) == Ok::<Seq<char>, Seq<char>>(bias),
        step_of(m, st, b, r) matches Ok(StepView::Subsample { input, out, stride }) ==> r.get::<u32>("in"@) == Ok::<u32, Seq<char>>(
            input,
        ) && r.get::<u32>("out"@) == Ok::<u32, Seq<char>>(out) && r.get::<usize>("stride"@) == Ok::<usize, Seq<char>>(stride),
        step_of(m, st, b, r) matches Ok(StepView::Add { a, b: other, out }) ==> r.get::<u32>("a"@) == Ok::<u32, Seq<char>>(a)
            && r.get::<u32>("b"@) == Ok::<u32, Seq<char>>(other) && r.get::<u32>("out"@) == Ok::<u32, Seq<char>>(out),
        step_of(m, st, b, r) matches Ok(StepView::Head { input, k, n, bt, b2 }) ==> r.get::<u32>("in"@) == Ok::<u32, Seq<char>>(input)
            && r.get::<usize>("k"@) == Ok::<usize, Seq<char>>(k) && r.get::<usize>("n"@) == Ok::<usize, Seq<char>>(n) && r.str("bT"@)
            == Ok::<Seq<char>, Seq<char>>(bt) && r.str("b2"@) == Ok::<Seq<char>, Seq<char>>(b2),
        step_of(m, st, b, r) matches Ok(StepView::Conv(cv)) ==> {
            &&& r.get::<u32>("in"@) == Ok::<u32, Seq<char>>(cv.input)
            &&& r.get::<u32>("out"@) == Ok::<u32, Seq<char>>(cv.out)
            &&& r.get::<usize>("c0"@) == Ok::<usize, Seq<char>>(cv.c0)
            &&& r.get::<usize>("icg"@) == Ok::<usize, Seq<char>>(cv.icg)
            &&& r.get::<usize>("wp"@) == Ok::<usize, Seq<char>>(cv.wp)
            &&& r.get::<usize>("oc"@) == Ok::<usize, Seq<char>>(cv.oc)
            &&& r.get::<usize>("oh"@) == Ok::<usize, Seq<char>>(cv.oh)
            &&& r.get::<usize>("ow"@) == Ok::<usize, Seq<char>>(cv.ow)
            &&& r.get::<usize>("owp"@) == Ok::<usize, Seq<char>>(cv.owp)
            &&& r.str("wt"@) == Ok::<Seq<char>, Seq<char>>(cv.wt)
            &&& r.flag("first"@) == Ok::<bool, Seq<char>>(cv.first)
            &&& r.flag("last"@) == Ok::<bool, Seq<char>>(cv.last)
        },
{
}

/// A caller's image fills the stem's channels in order, each value rounded to
/// bfloat16, and leaves the others zero.
pub proof fn an_image_fills_the_stem(input: (usize, usize, usize), chw: Seq<u32>, t: Seq<u16>, ch: int, y: int, x: int)
    requires
        stem_input(input, chw) == Ok::<Seq<u16>, Seq<char>>(t),
        input.0 % 8 == 0,
        0 <= ch < input.0,
        0 <= y < input.1,
        0 <= x < input.2,
    ensures
        ({
            let at = (ch * input.1 + y) * input.2 + x;
            let v = t[((y * (input.0 as int / 8) + ch / 8) * input.2 + x) * 8 + ch % 8];
            &&& at < chw.len() ==> v == narrow_canonical(chw[at])
            &&& at >= chw.len() ==> v == 0
        }),
{
    an_image_is_tiled_by_channel(chw, input.0 as int, input.1 as int, input.2 as int, ch, y, x);
}

} // verus!
