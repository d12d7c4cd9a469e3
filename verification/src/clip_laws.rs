//! What CLIP's encoders are given and what becomes an embedding, by image or
//! prompt, token and channel.

use crate::arith::{index_bound, split_index};
use crate::bf16::{narrow, wide};
use crate::clip::{first_unknown, is_embedded, is_end, is_token, patch_place, replaced};
use crate::clip_config::names_of_set;
use crate::clip_encode::{every, is_first, is_normed_row, is_pass, passes, row_at, starts_from, Pass};
use crate::clip_npu::{attention_fault, image_rows, kernel_name, layer_launches, tower_fault, views_of, KernelsView, Rows, Gemm, Launch, Slot};
use crate::manifest::RecordView;
use crate::sam3::Error;
use crate::text::{decimal, starts_with};
use vstd::prelude::*;

verus! {

/// Pixel (`ky`, `kx`) of channel `ch` of patch (`py`, `px`) of an image is the
/// image's own, that far into the square at the patch's place: patches are
/// rows, in raster order, image after image.
pub proof fn patches_are_squares(first: int, g: int, ps: int, s: int, image: int, py: int, px: int, ch: int, ky: int, kx: int)
    requires
        0 <= image,
        0 <= py < g,
        0 <= px < g,
        0 <= ch < 3,
        0 <= ky < ps,
        0 <= kx < ps,
    ensures
        patch_place(
            first,
            g,
            ps,
            s,
            (image * (g * g) + (py * g + px)) * (3 * (ps * ps)) + (ch * (ps * ps) + (ky * ps + kx)),
        ) == (first + image) * (3 * (s * s)) + ch * (s * s) + (py * ps + ky) * s + (px * ps + kx),
{
    let (q, gg) = (ps * ps, g * g);
    index_bound(ky, kx, ps, ps);
    index_bound(ch, ky * ps + kx, 3, q);
    index_bound(py, px, g, g);
    split_index(image * gg + (py * g + px), ch * q + (ky * ps + kx), 3 * q);
    split_index(image, py * g + px, gg);
    split_index(py, px, g);
    split_index(ch, ky * ps + kx, q);
    split_index(ky, kx, ps);
}

/// The first row of an image is the class embedding plus the first position,
/// row `t` the embedding of patch `t - 1` of that image plus position `t`;
/// the rows between images are zero.
pub proof fn rows_are_tokens<A: Fn(u32, u32) -> u32>(
    plus: A,
    cls: Seq<u32>,
    emb: Seq<u32>,
    pos: Seq<u32>,
    tokens: int,
    stride: int,
    d: int,
    image: int,
    t: int,
    j: int,
    v: u32,
)
    requires
        0 <= image,
        0 <= t < stride,
        0 <= j < d,
        is_token(plus, cls, emb, pos, tokens, stride, d, (image * stride + t) * d + j, v),
    ensures
        t == 0 && tokens > 0 ==> call_ensures(plus, (cls[j], pos[j]), v),
        0 < t < tokens ==> call_ensures(plus, (emb[(image * (tokens - 1) + (t - 1)) * d + j], pos[t * d + j]), v),
        t >= tokens ==> v == 0,
{
    split_index(image * stride + t, j, d);
    split_index(image, t, stride);
    assert(0 * d == 0);
}

/// Row `s` of a prompt is the embedding of its token `s` plus position `s`;
/// the rows between prompts are zero.
pub proof fn rows_are_prompts<A: Fn(u32, u32) -> u32>(
    plus: A,
    ids: Seq<u32>,
    first: int,
    context: int,
    pad: int,
    d: int,
    tok: Seq<u32>,
    pos: Seq<u32>,
    prompt: int,
    s: int,
    j: int,
    v: u32,
)
    requires
        0 <= prompt,
        0 <= s < pad,
        0 <= j < d,
        is_embedded(plus, ids, first, context, pad, d, tok, pos, (prompt * pad + s) * d + j, v),
    ensures
        s < context ==> call_ensures(plus, (tok[ids[(first + prompt) * context + s] * d + j], pos[s * d + j]), v),
        s >= context ==> v == 0,
{
    split_index(prompt * pad + s, j, d);
    split_index(prompt, s, pad);
}

/// The embeddings of rows `at` of a pass are what the head makes of those
/// rows of the tower's answer, in order.
pub proof fn embeddings_are_of_their_rows<R: Fn(&Vec<u32>) -> Result<Vec<u32>, Error>, H: Fn(&Vec<u32>) -> Vec<u32>>(
    run: R,
    head: H,
    dim: int,
    at: Seq<int>,
    e: nat,
    x: Vec<u32>,
    s: Seq<u32>,
    k: int,
)
    requires
        passes(run, head, dim, at, e, x, s),
        0 <= k < at.len(),
    ensures
        s.len() == at.len() * e,
        exists|y: Vec<u32>, state: Vec<u32>, out: Vec<u32>| #[trigger]
            call_ensures(run, (&x,), Ok::<Vec<u32>, Error>(y)) && #[trigger] call_ensures(head, (&state,), out) && state@ == y@.subrange(
                at[k] * dim,
                (at[k] + 1) * dim,
            ) && s.subrange(k * e, (k + 1) * e) == out@,
{
    let t = choose|t: Pass| t.x == x && #[trigger] is_pass(run, head, dim, at, e, t, s);
    assert(t.states[k]@ == row_at(t.y@, dim, at[k]));
    assert(row_at(s, e as int, k) == t.embeddings[k]@);
    assert(call_ensures(run, (&x,), Ok::<Vec<u32>, Error>(t.y)));
    assert(call_ensures(head, (&t.states[k],), t.embeddings[k]));
}

/// Image `k` of a pass is read at its first row, the class token's.
pub proof fn images_are_read_at_their_class_token(count: nat, stride: int, k: int)
    requires
        0 <= k < count,
    ensures
        every(count, stride).len() == count,
        every(count, stride)[k] == k * stride,
{
}

/// A prompt is read at its end: where the end token has the highest id, no
/// token is higher and none before it as high; else it is the first of its
/// kind.
pub proof fn prompts_are_read_at_their_end(row: Seq<u32>, eos: u32, e: int, i: int)
    requires
        0 <= i < row.len(),
    ensures
        is_end(row, eos, true, e) ==> 0 <= e < row.len() && row[i] <= row[e] && (i < e ==> row[i] < row[e]),
        is_end(row, eos, false, e) && row[i] == eos ==> 0 <= e <= i && row[e] == eos,
{
}

/// A layer adds the attention's projection to the stream and hands the norm
/// of the sum to the MLP, whose result it adds to that sum; the norm of it is
/// what the next layer reads.
pub proof fn a_layer_carries_the_stream(attention: nat)
    ensures
        ({
            let l = layer_launches(attention);
            let n = attention as int;
            &&& l.len() == n + 6
            &&& l[0] == Launch::Gemm(Gemm::Qkv)
            &&& forall|i: int| 0 <= i < n ==> #[trigger] l[i + 1] == Launch::Attention(i as usize)
            &&& l[n + 1] == Launch::Gemm(Gemm::O)
            &&& l[n + 2] == (Launch::AddNorm { from: Slot::ResA, add: Slot::OC, to: Slot::ResB, next: Slot::Fc1A })
            &&& l[n + 3] == Launch::Gemm(Gemm::Fc1)
            &&& l[n + 4] == Launch::Gemm(Gemm::Fc2)
            &&& l[n + 5] == (Launch::AddNorm { from: Slot::ResB, add: Slot::Fc2C, to: Slot::ResA, next: Slot::QkvA })
        }),
{
}

/// A label takes the place of the first `{}`, and what follows goes on the
/// same way.
pub proof fn a_label_takes_its_place(before: Seq<char>, after: Seq<char>, label: Seq<char>)
    requires
        forall|k: int| 0 <= k < before.len() ==> !#[trigger] starts_with((before + "{}"@ + after).skip(k), "{}"@),
    ensures
        replaced(before + "{}"@ + after, "{}"@, label) == before + label + replaced(after, "{}"@, label),
    decreases before.len(),
{
    reveal_strlit("{}");
    let s = before + "{}"@ + after;
    if before.len() == 0 {
        assert(s =~= "{}"@ + after);
        assert(s.take(2) =~= "{}"@);
        assert(s.skip(2) =~= after);
        assert(before + label =~= label);
    } else {
        assert(s.skip(0) =~= s);
        assert(!starts_with(s.skip(0), "{}"@));
        let b = before.skip(1);
        assert(s.skip(1) =~= b + "{}"@ + after);
        assert forall|k: int| 0 <= k < b.len() implies !#[trigger] starts_with((b + "{}"@ + after).skip(k), "{}"@) by {
            assert((b + "{}"@ + after).skip(k) =~= s.skip(k + 1));
            assert(!starts_with(s.skip(k + 1), "{}"@));
        }
        a_label_takes_its_place(b, after, label);
        assert(seq![s[0]] + (b + label + replaced(after, "{}"@, label)) =~= before + label + replaced(after, "{}"@, label));
    }
}

/// A tower starts from the stream in half precision; its first operand is, row
/// by row, the norm of that row, rounded.
pub proof fn towers_start_from_normed_rows<P: Fn(&Vec<u32>) -> Vec<u32>>(
    norm: P,
    stream: Seq<u16>,
    rows: int,
    dim: int,
    h: Seq<u16>,
    r: int,
) -> (t: (Vec<u32>, Vec<u32>))
    requires
        starts_from(norm, stream, rows, dim, h),
        stream.len() == rows * dim,
        dim >= 0,
        0 <= r < rows,
    ensures
        call_ensures(norm, (&t.0,), t.1),
        t.0.len() == dim,
        t.1.len() == dim,
        forall|k: int| 0 <= k < dim ==> #[trigger] t.0[k] == wide(stream[r * dim + k]),
        forall|k: int| 0 <= k < dim ==> #[trigger] h[r * dim + k] == narrow(t.1[k]),
{
    let (inputs, normed) = choose|inputs: Seq<Vec<u32>>, normed: Seq<Vec<u32>>| #[trigger]
        is_first(norm, stream, rows, dim, inputs, normed, h);
    let (a, b) = (inputs[r], normed[r]);
    assert(0 <= r * dim && (r + 1) * dim == r * dim + dim && (r + 1) * dim <= rows * dim) by (nonlinear_arith)
        requires
            0 <= r,
            r + 1 <= rows,
            dim >= 0,
    ;
    let s = stream.subrange(r * dim, (r + 1) * dim);
    let o = h.subrange(r * dim, (r + 1) * dim);
    assert(is_normed_row(norm, s, a, b, o));
    assert(crate::gather::narrowed(b@).len() == b@.len() && crate::gather::widened(s).len() == s.len());
    assert forall|k: int| 0 <= k < dim implies #[trigger] a[k] == wide(stream[r * dim + k]) by {
        assert(s[k] == stream[r * dim + k]);
    }
    assert forall|k: int| 0 <= k < dim implies #[trigger] h[r * dim + k] == narrow(b[k]) by {
        assert(o[k] == h[r * dim + k]);
    }
    (a, b)
}

/// An attention launch sees the bytes of its own rows: two for each value of
/// the output, three times as many of the queries, keys and values.
pub proof fn attention_sees_its_rows(a: Rows, dim: nat)
    requires
        (a.first + a.count) * (3 * dim) * 2 <= usize::MAX,
    ensures
        views_of(a, dim).o.offset == 2 * (a.first * dim),
        views_of(a, dim).o.bytes == 2 * (a.count * dim),
        views_of(a, dim).qkv.offset == 3 * views_of(a, dim).o.offset,
        views_of(a, dim).qkv.bytes == 3 * views_of(a, dim).o.bytes,
{
    let (f, c, d) = (a.first as int, a.count as int, dim as int);
    assert(f * (3 * d) * 2 == 6 * (f * d) && c * (3 * d) * 2 == 6 * (c * d) && f * d * 2 == 2 * (f * d) && c * d * 2 == 2 * (c * d))
        by (nonlinear_arith);
    assert((f + c) * (3 * d) * 2 == 6 * (f * d) + 6 * (c * d)) by (nonlinear_arith);
    assert(f * d >= 0 && c * d >= 0) by (nonlinear_arith)
        requires
            f >= 0,
            c >= 0,
            d >= 0,
    ;
}

/// Each image has a launch of its own, a stride after the one before.
pub proof fn each_image_has_its_launch(batch: nat, stride: nat, count: usize, i: int)
    requires
        batch * stride <= usize::MAX,
        0 <= i < batch,
    ensures
        image_rows(batch, stride, count).len() == batch,
        image_rows(batch, stride, count)[i].first == i * stride,
        image_rows(batch, stride, count)[i].count == count,
{
    assert(0 <= i * stride <= batch * stride) by (nonlinear_arith)
        requires
            0 <= i <= batch,
            stride >= 0,
    ;
}

/// The id that is refused is one of the prompt's outside the vocabulary; none
/// is where all are inside.
pub proof fn unknown_ids_are_found(ids: Seq<u32>, vocab: nat)
    ensures
        match first_unknown(ids, vocab) {
            Some(id) => id >= vocab && ids.contains(id),
            None => forall|i: int| 0 <= i < ids.len() ==> #[trigger] ids[i] < vocab,
        },
    decreases ids.len(),
{
    if ids.len() > 0 && ids[0] < vocab {
        let t = ids.skip(1);
        unknown_ids_are_found(t, vocab);
        if let Some(id) = first_unknown(t, vocab) {
            let j = t.index_of(id);
            assert(ids[j + 1] == id);
        } else {
            assert forall|i: int| 0 <= i < ids.len() implies #[trigger] ids[i] < vocab by {
                if i > 0 {
                    assert(t[i - 1] == ids[i]);
                }
            }
        }
    }
}

/// The names of a reference set come in the file's order: those of a file are
/// those of its parts, and a record names one if it is of the set.
pub proof fn sets_are_listed_in_file_order(a: Seq<RecordView>, b: Seq<RecordView>, r: RecordView, tag: Seq<char>, set: nat)
    ensures
        names_of_set(a + b, tag, set) == names_of_set(a, tag, set) + names_of_set(b, tag, set),
        r.tag == tag && r.fields.len() > 0 && r.fields[0] == decimal(set) ==> names_of_set(seq![r], tag, set) == seq![r.rest(2)],
        r.tag != tag || r.fields.len() == 0 || r.fields[0] != decimal(set) ==> names_of_set(seq![r], tag, set).len() == 0,
    decreases b.len(),
{
    assert(seq![r].drop_last() =~= Seq::<RecordView>::empty());
    assert(names_of_set(Seq::<RecordView>::empty(), tag, set) =~= Seq::<Seq<char>>::empty());
    assert(Seq::<Seq<char>>::empty().push(r.rest(2)) =~= seq![r.rest(2)]);
    if b.len() == 0 {
        assert(a + b =~= a);
        assert(names_of_set(a, tag, set) + names_of_set(b, tag, set) =~= names_of_set(a, tag, set));
    } else {
        assert((a + b).drop_last() =~= a + b.drop_last());
        sets_are_listed_in_file_order(a, b.drop_last(), r, tag, set);
        assert(names_of_set(a + b, tag, set) =~= names_of_set(a, tag, set) + names_of_set(b, tag, set));
    }
}

/// A tower can be set up exactly where its four kernels are there, run over
/// its rows in whole dispatches whose operands fit, carry its width to three
/// of it, back to one, and through the perceptron's, and no attention reaches
/// beyond its rows.
pub proof fn a_tower_fits_its_kernels(k: KernelsView, p: Seq<char>, dim: nat, rows: nat, a: Seq<Rows>)
    ensures
        tower_fault(k, p, dim, rows, a) is None <==> {
            let (qkv, o) = (k.gemms[p + "_qkv"@], k.gemms[p + "_o"@]);
            let (fc1, fc2) = (k.gemms[p + "_fc1"@], k.gemms[p + "_fc2"@]);
            &&& k.gemms.contains_key(p + "_qkv"@) && k.gemms.contains_key(p + "_o"@)
            &&& k.gemms.contains_key(p + "_fc1"@) && k.gemms.contains_key(p + "_fc2"@)
            &&& rows % (qkv.m as nat) == 0 && rows % (o.m as nat) == 0 && rows % (fc1.m as nat) == 0 && rows % (fc2.m as nat) == 0
            &&& qkv.k == dim && qkv.n == 3 * dim && o.k == dim && o.n == dim
            &&& fc1.k == dim && fc2.k == fc1.n && fc2.n == dim
            &&& 2 * (rows * dim) <= usize::MAX && 2 * (rows * (3 * dim)) <= usize::MAX && 2 * (rows * fc1.n) <= usize::MAX
            &&& forall|i: int| 0 <= i < a.len() ==> (#[trigger] a[i]).first + a[i].count <= rows
        },
{
    reveal_strlit("_");
    reveal_strlit("qkv");
    reveal_strlit("o");
    reveal_strlit("fc1");
    reveal_strlit("fc2");
    reveal_strlit("_qkv");
    reveal_strlit("_o");
    reveal_strlit("_fc1");
    reveal_strlit("_fc2");
    assert(kernel_name(p, "qkv"@) =~= p + "_qkv"@);
    assert(kernel_name(p, "o"@) =~= p + "_o"@);
    assert(kernel_name(p, "fc1"@) =~= p + "_fc1"@);
    assert(kernel_name(p, "fc2"@) =~= p + "_fc2"@);
    attention_fits(p, a, rows);
    let n1 = k.gemms[p + "_fc1"@].n as int;
    let (r, d) = (rows as int, dim as int);
    assert(r * d * 2 == 2 * (r * d) && r * (3 * d) * 2 == 2 * (r * (3 * d)) && r * n1 * 2 == 2 * (r * n1)) by (nonlinear_arith);
}

proof fn attention_fits(p: Seq<char>, a: Seq<Rows>, rows: nat)
    ensures
        attention_fault(p, a, rows) is None <==> forall|i: int| 0 <= i < a.len() ==> (#[trigger] a[i]).first + a[i].count <= rows,
    decreases a.len(),
{
    if a.len() > 0 {
        let t = a.drop_last();
        attention_fits(p, t, rows);
        if attention_fault(p, a, rows) is None {
            assert forall|i: int| 0 <= i < a.len() implies (#[trigger] a[i]).first + a[i].count <= rows by {
                if i < t.len() {
                    assert(t[i] == a[i]);
                }
            }
        } else if forall|i: int| 0 <= i < a.len() ==> (#[trigger] a[i]).first + a[i].count <= rows {
            assert forall|i: int| 0 <= i < t.len() implies (#[trigger] t[i]).first + t[i].count <= rows by {
                assert(t[i] == a[i]);
            }
            assert(a[a.len() - 1].first + a[a.len() - 1].count <= rows);
        }
    }
}

} // verus!
