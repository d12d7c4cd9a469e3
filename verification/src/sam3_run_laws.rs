//! What the steps of a running SAM 3 program are given: their operands, and
//! the tensors, byte by byte, of the names they have.

use crate::arith::index_bound;
use crate::bf16::{narrow, wide};
use crate::pack::{exponent, mantissa};
use crate::pack_laws::{every_bias_is_in_its_place, every_weight_is_in_its_place, first_block, per_column_block};
use crate::sam3::Error;
use crate::sam3_forward::{segments_to, stage_to, stage_trace, stages, InputView, Stage};
use crate::sam3_layout::{is_prefix_mask, ones, rows_go_where_told};
use crate::sam3_machine::{
    bias, compute_gives, is_rounded, layers_wanted, plain, step_to, tensor, tensors, tiling_of, unwritten_registers_keep, wanted,
    Fault, ModelView, Parts, WantView,
};
use crate::sam3_config::{ConfigView, Launch};
use crate::sam3_operands::{wants_of, WantView as Operand};
use crate::sam3_stages::{computable, sizes_of, text_spares, Widths};
use crate::sam3_steps::{Op, Reg, StepView};
use crate::sam3_values::{operands, Value, ValueView};
use crate::store::{elems16, elems32, signed_elems32, DType, StoreView};
use crate::text::decimal;
use vstd::prelude::*;

verus! {

/// Every tensor of the store lies inside its bytes.
pub open spec fn lies_inside(st: StoreView) -> bool {
    forall|name: Seq<char>| #[trigger]
        st.tensors.contains_key(name) ==> st.tensors[name].off + st.tensors[name].len <= st.data.len()
}

/// Byte `i` of tensor `name`.
pub open spec fn byte_at(st: StoreView, name: Seq<char>, i: int) -> u8 {
    st.data[st.tensors[name].off + i]
}

/// `v` is the single-precision tensor `name`: four bytes a value, the lowest
/// first.
pub open spec fn is_real_tensor(st: StoreView, name: Seq<char>, v: ValueView) -> bool {
    &&& st.tensors.contains_key(name)
    &&& st.tensors[name].dtype == DType::F32
    &&& v is Reals
    &&& v->Reals_0.len() == st.tensors[name].len as int / 4
    &&& forall|i: int| #![trigger v->Reals_0[i]]
        0 <= i < v->Reals_0.len() ==> v->Reals_0[i] == byte_at(st, name, 4 * i) + 256 * byte_at(st, name, 4 * i + 1) + 65536 * byte_at(
            st,
            name,
            4 * i + 2,
        ) + 16777216 * byte_at(st, name, 4 * i + 3)
}

/// `v` is the bfloat16 tensor `name`: two bytes a value, the lower first.
pub open spec fn is_half_tensor(st: StoreView, name: Seq<char>, v: ValueView) -> bool {
    &&& st.tensors.contains_key(name)
    &&& st.tensors[name].dtype == DType::Bf16
    &&& v is Halves
    &&& v->Halves_0.len() == st.tensors[name].len as int / 2
    &&& forall|i: int| #![trigger v->Halves_0[i]]
        0 <= i < v->Halves_0.len() ==> v->Halves_0[i] == byte_at(st, name, 2 * i) + 256 * byte_at(st, name, 2 * i + 1)
}

/// `v` is the single-precision tensor `name`, or empty where there is none.
pub open spec fn is_bias_tensor(st: StoreView, name: Seq<char>, v: ValueView) -> bool {
    if st.tensors.contains_key(name) {
        is_real_tensor(st, name, v)
    } else {
        v is Reals && v->Reals_0.len() == 0
    }
}

/// A tensor that is asked for in single precision is that tensor.
pub proof fn tensors_are_their_bytes(st: StoreView, w: WantView, v: ValueView)
    requires
        lies_inside(st),
        tensor(st, w) == Ok::<ValueView, Seq<char>>(v),
    ensures
        !w.optional && !w.half ==> is_real_tensor(st, w.name, v),
        !w.optional && w.half ==> is_half_tensor(st, w.name, v),
        w.optional && !w.half ==> is_bias_tensor(st, w.name, v),
{
    if st.tensors.contains_key(w.name) {
        let e = st.tensors[w.name];
        let b = st.slice(e);
        assert(b.len() == e.len);
        assert forall|i: int| 0 <= i < e.len implies #[trigger] b[i] == byte_at(st, w.name, i) by {}
        if w.half {
            assert(st.typed(w.name, DType::Bf16) == Ok::<Seq<u8>, Seq<char>>(b));
            let h = elems16(b);
            assert forall|i: int| #![trigger h[i]] 0 <= i < h.len() implies h[i] == byte_at(st, w.name, 2 * i) + 256 * byte_at(
                st,
                w.name,
                2 * i + 1,
            ) by {
                assert(b[2 * i] == byte_at(st, w.name, 2 * i) && b[2 * i + 1] == byte_at(st, w.name, 2 * i + 1));
            }
        } else {
            assert(st.typed(w.name, DType::F32) == Ok::<Seq<u8>, Seq<char>>(b));
            let h = elems32(b);
            assert forall|i: int| #![trigger h[i]] 0 <= i < h.len() implies h[i] == byte_at(st, w.name, 4 * i) + 256 * byte_at(
                st,
                w.name,
                4 * i + 1,
            ) + 65536 * byte_at(st, w.name, 4 * i + 2) + 16777216 * byte_at(st, w.name, 4 * i + 3) by {
                assert(b[4 * i] == byte_at(st, w.name, 4 * i) && b[4 * i + 1] == byte_at(st, w.name, 4 * i + 1));
                assert(b[4 * i + 2] == byte_at(st, w.name, 4 * i + 2) && b[4 * i + 3] == byte_at(st, w.name, 4 * i + 3));
            }
        }
    }
}

proof fn tensors_one_by_one(st: StoreView, ws: Seq<WantView>)
    requires
        tensors(st, ws) is Ok,
    ensures
        tensors(st, ws)->Ok_0.len() == ws.len(),
        forall|i: int| #![trigger tensors(st, ws)->Ok_0[i]]
            0 <= i < ws.len() ==> tensor(st, ws[i]) == Ok::<ValueView, Seq<char>>(tensors(st, ws)->Ok_0[i]),
    decreases ws.len(),
{
    if ws.len() > 0 {
        tensors_one_by_one(st, ws.drop_last());
    }
}

/// The step's operands: the values of the registers it reads, in order.
pub open spec fn reads_registers(s: StepView, x: Map<Reg, ValueView>, a: Seq<ValueView>) -> bool {
    a.len() == s.from.len() && forall|k: int| #![trigger a[k]] 0 <= k < a.len() ==> x.contains_key(s.from[k]) && a[k] == x[s.from[k]]
}

/// A step that only moves the answer of a computation into its register: it
/// computes on the registers it reads and leaves the answer where it says.
proof fn computed<
    P: Fn(u32, u32) -> u32,
    M: Fn(u32, u32) -> u32,
    E: Fn(&Op, u32) -> u32,
    C: Fn(&Op, &Vec<&Value>, &Vec<Value>) -> Result<Value, Error>,
    D: Fn(&Op, &String, &Vec<&Value>) -> Result<Value, Error>,
>(
    parts: &Parts<P, M, E, C, D>,
    m: ModelView,
    s: StepView,
    x: Map<Reg, ValueView>,
    y: Map<Reg, ValueView>,
) -> (t: Seq<ValueView>)
    requires
        step_to(parts, m, s, x, y),
        compute_gives(parts, m, s, x, Ok::<ValueView, Fault>(y[s.to])),
        lies_inside(m.store),
    ensures
        exists|a: Seq<ValueView>|
            reads_registers(s, x, a) && #[trigger] parts.computes(s.op, a, t, Ok::<ValueView, Error>(y[s.to])),
        t.len() == wanted(s).len(),
        forall|i: int| #![trigger wanted(s)[i]]
            0 <= i < t.len() ==> {
                let w = wanted(s)[i];
                &&& !w.optional && !w.half ==> is_real_tensor(m.store, w.name, t[i])
                &&& !w.optional && w.half ==> is_half_tensor(m.store, w.name, t[i])
                &&& w.optional && !w.half ==> is_bias_tensor(m.store, w.name, t[i])
            },
{
    let a = operands(x, s)->0;
    let ws = wanted(s);
    let t = tensors(m.store, ws)->Ok_0;
    tensors_one_by_one(m.store, ws);
    assert(reads_registers(s, x, a));
    assert(parts.computes(s.op, a, t, Ok::<ValueView, Error>(y[s.to])));
    assert forall|i: int| #![trigger ws[i]] 0 <= i < t.len() implies {
        let w = ws[i];
        &&& !w.optional && !w.half ==> is_real_tensor(m.store, w.name, t[i])
        &&& !w.optional && w.half ==> is_half_tensor(m.store, w.name, t[i])
        &&& w.optional && !w.half ==> is_bias_tensor(m.store, w.name, t[i])
    } by {
        tensors_are_their_bytes(m.store, ws[i], t[i]);
    }
    t
}

/// A linear layer computes on what it reads with the weights `.w` of its name,
/// in bfloat16 if it says so, and the bias `.b`, if there is one.
pub proof fn a_linear_layer_takes_its_weights_and_bias<
    P: Fn(u32, u32) -> u32,
    M: Fn(u32, u32) -> u32,
    E: Fn(&Op, u32) -> u32,
    C: Fn(&Op, &Vec<&Value>, &Vec<Value>) -> Result<Value, Error>,
    D: Fn(&Op, &String, &Vec<&Value>) -> Result<Value, Error>,
>(
    parts: &Parts<P, M, E, C, D>,
    m: ModelView,
    s: StepView,
    x: Map<Reg, ValueView>,
    y: Map<Reg, ValueView>,
) -> (t: Seq<ValueView>)
    requires
        s.op is Linear,
        step_to(parts, m, s, x, y),
        lies_inside(m.store),
    ensures
        exists|a: Seq<ValueView>|
            reads_registers(s, x, a) && #[trigger] parts.computes(s.op, a, t, Ok::<ValueView, Error>(y[s.to])),
        t.len() == 2,
        s.op->Linear_half ==> is_half_tensor(m.store, s.name + ".w"@, t[0]),
        !s.op->Linear_half ==> is_real_tensor(m.store, s.name + ".w"@, t[0]),
        is_bias_tensor(m.store, s.name + ".b"@, t[1]),
{
    let t = computed(parts, m, s, x, y);
    let w0 = wanted(s)[0];
    let w1 = wanted(s)[1];
    t
}

/// A norm computes on what it reads with the scale `.w` and the shift `.b` of
/// its name.
pub proof fn a_norm_takes_its_scale_and_shift<
    P: Fn(u32, u32) -> u32,
    M: Fn(u32, u32) -> u32,
    E: Fn(&Op, u32) -> u32,
    C: Fn(&Op, &Vec<&Value>, &Vec<Value>) -> Result<Value, Error>,
    D: Fn(&Op, &String, &Vec<&Value>) -> Result<Value, Error>,
>(
    parts: &Parts<P, M, E, C, D>,
    m: ModelView,
    s: StepView,
    x: Map<Reg, ValueView>,
    y: Map<Reg, ValueView>,
) -> (t: Seq<ValueView>)
    requires
        s.op is LayerNorm || s.op is GroupNormRelu,
        step_to(parts, m, s, x, y),
        lies_inside(m.store),
    ensures
        exists|a: Seq<ValueView>|
            reads_registers(s, x, a) && #[trigger] parts.computes(s.op, a, t, Ok::<ValueView, Error>(y[s.to])),
        t.len() == 2,
        is_real_tensor(m.store, s.name + ".w"@, t[0]),
        is_real_tensor(m.store, s.name + ".b"@, t[1]),
{
    let t = computed(parts, m, s, x, y);
    let w0 = wanted(s)[0];
    let w1 = wanted(s)[1];
    t
}

/// What folds weights into scores or values takes the weights `.w` of its name.
pub proof fn a_fold_takes_its_weights<
    P: Fn(u32, u32) -> u32,
    M: Fn(u32, u32) -> u32,
    E: Fn(&Op, u32) -> u32,
    C: Fn(&Op, &Vec<&Value>, &Vec<Value>) -> Result<Value, Error>,
    D: Fn(&Op, &String, &Vec<&Value>) -> Result<Value, Error>,
>(
    parts: &Parts<P, M, E, C, D>,
    m: ModelView,
    s: StepView,
    x: Map<Reg, ValueView>,
    y: Map<Reg, ValueView>,
) -> (t: Seq<ValueView>)
    requires
        s.op is FoldScores || s.op is FoldValues,
        step_to(parts, m, s, x, y),
        lies_inside(m.store),
    ensures
        exists|a: Seq<ValueView>|
            reads_registers(s, x, a) && #[trigger] parts.computes(s.op, a, t, Ok::<ValueView, Error>(y[s.to])),
        t.len() == 1,
        is_real_tensor(m.store, s.name + ".w"@, t[0]),
{
    let t = computed(parts, m, s, x, y);
    let w0 = wanted(s)[0];
    t
}

/// What folds a bias into scores takes the bias `.b` of its name.
pub proof fn a_fold_takes_its_bias<
    P: Fn(u32, u32) -> u32,
    M: Fn(u32, u32) -> u32,
    E: Fn(&Op, u32) -> u32,
    C: Fn(&Op, &Vec<&Value>, &Vec<Value>) -> Result<Value, Error>,
    D: Fn(&Op, &String, &Vec<&Value>) -> Result<Value, Error>,
>(
    parts: &Parts<P, M, E, C, D>,
    m: ModelView,
    s: StepView,
    x: Map<Reg, ValueView>,
    y: Map<Reg, ValueView>,
) -> (t: Seq<ValueView>)
    requires
        s.op is FoldScoreBias,
        step_to(parts, m, s, x, y),
        lies_inside(m.store),
    ensures
        exists|a: Seq<ValueView>|
            reads_registers(s, x, a) && #[trigger] parts.computes(s.op, a, t, Ok::<ValueView, Error>(y[s.to])),
        t.len() == 1,
        is_real_tensor(m.store, s.name + ".b"@, t[0]),
{
    let t = computed(parts, m, s, x, y);
    let w0 = wanted(s)[0];
    t
}

/// What folds the mask heads takes the weights of the instances, then those of
/// the classes.
pub proof fn a_head_takes_both_weights<
    P: Fn(u32, u32) -> u32,
    M: Fn(u32, u32) -> u32,
    E: Fn(&Op, u32) -> u32,
    C: Fn(&Op, &Vec<&Value>, &Vec<Value>) -> Result<Value, Error>,
    D: Fn(&Op, &String, &Vec<&Value>) -> Result<Value, Error>,
>(
    parts: &Parts<P, M, E, C, D>,
    m: ModelView,
    s: StepView,
    x: Map<Reg, ValueView>,
    y: Map<Reg, ValueView>,
) -> (t: Seq<ValueView>)
    requires
        s.op is FoldHead,
        step_to(parts, m, s, x, y),
        lies_inside(m.store),
    ensures
        exists|a: Seq<ValueView>|
            reads_registers(s, x, a) && #[trigger] parts.computes(s.op, a, t, Ok::<ValueView, Error>(y[s.to])),
        t.len() == 2,
        is_real_tensor(m.store, s.name + ".inst.w"@, t[0]),
        is_real_tensor(m.store, s.name + ".sem.w"@, t[1]),
{
    let t = computed(parts, m, s, x, y);
    let w0 = wanted(s)[0];
    let w1 = wanted(s)[1];
    t
}

/// What folds the mask heads' biases takes that of the instances, then that of
/// the classes.
pub proof fn a_head_takes_both_biases<
    P: Fn(u32, u32) -> u32,
    M: Fn(u32, u32) -> u32,
    E: Fn(&Op, u32) -> u32,
    C: Fn(&Op, &Vec<&Value>, &Vec<Value>) -> Result<Value, Error>,
    D: Fn(&Op, &String, &Vec<&Value>) -> Result<Value, Error>,
>(
    parts: &Parts<P, M, E, C, D>,
    m: ModelView,
    s: StepView,
    x: Map<Reg, ValueView>,
    y: Map<Reg, ValueView>,
) -> (t: Seq<ValueView>)
    requires
        s.op is FoldHeadBias,
        step_to(parts, m, s, x, y),
        lies_inside(m.store),
    ensures
        exists|a: Seq<ValueView>|
            reads_registers(s, x, a) && #[trigger] parts.computes(s.op, a, t, Ok::<ValueView, Error>(y[s.to])),
        t.len() == 2,
        is_real_tensor(m.store, s.name + ".inst.b"@, t[0]),
        is_real_tensor(m.store, s.name + ".sem.b"@, t[1]),
{
    let t = computed(parts, m, s, x, y);
    let w0 = wanted(s)[0];
    let w1 = wanted(s)[1];
    t
}

/// Attention and what works on boxes and scores compute on what they read alone.
pub proof fn attention_takes_no_tensors<
    P: Fn(u32, u32) -> u32,
    M: Fn(u32, u32) -> u32,
    E: Fn(&Op, u32) -> u32,
    C: Fn(&Op, &Vec<&Value>, &Vec<Value>) -> Result<Value, Error>,
    D: Fn(&Op, &String, &Vec<&Value>) -> Result<Value, Error>,
>(
    parts: &Parts<P, M, E, C, D>,
    m: ModelView,
    s: StepView,
    x: Map<Reg, ValueView>,
    y: Map<Reg, ValueView>,
) -> (t: Seq<ValueView>)
    requires
        s.op is SelfAttend || s.op is Attend || s.op is AttendValid || s.op is AttendGrid || s.op is BoxSine || s.op is EdgeDistances
            || s.op is Refine || s.op is Corners || s.op is MeanValid || s.op is ScaledDot || s.op is SoftmaxValid || s.op is Standardize,
        step_to(parts, m, s, x, y),
        lies_inside(m.store),
    ensures
        exists|a: Seq<ValueView>|
            reads_registers(s, x, a) && #[trigger] parts.computes(s.op, a, t, Ok::<ValueView, Error>(y[s.to])),
        t.len() == 0,
{
    let t = computed(parts, m, s, x, y);
    t
}

proof fn layer_wanted(name: Seq<char>, n: nat, k: int)
    requires
        1 <= k <= n,
    ensures
        layers_wanted(name, n).len() == 2 * n,
        layers_wanted(name, n)[2 * k - 2] == plain(name + "."@ + decimal(k as nat) + ".w"@),
        layers_wanted(name, n)[2 * k - 1] == bias(name + "."@ + decimal(k as nat) + ".b"@),
    decreases n,
{
    if k < n {
        layer_wanted(name, (n - 1) as nat, k);
    } else if n > 1 {
        layer_wanted(name, (n - 1) as nat, 1);
    } else {
        assert(layers_wanted(name, 0).len() == 0);
    }
}

/// A perceptron takes the weights and the bias of each of its layers, numbered
/// from one: layer `k` has the name, a dot and `k`.
pub proof fn a_perceptron_takes_its_layers<
    P: Fn(u32, u32) -> u32,
    M: Fn(u32, u32) -> u32,
    E: Fn(&Op, u32) -> u32,
    C: Fn(&Op, &Vec<&Value>, &Vec<Value>) -> Result<Value, Error>,
    D: Fn(&Op, &String, &Vec<&Value>) -> Result<Value, Error>,
>(
    parts: &Parts<P, M, E, C, D>,
    m: ModelView,
    s: StepView,
    x: Map<Reg, ValueView>,
    y: Map<Reg, ValueView>,
    k: int,
) -> (t: Seq<ValueView>)
    requires
        s.op is Mlp,
        1 <= k <= s.op->Mlp_layers,
        step_to(parts, m, s, x, y),
        lies_inside(m.store),
    ensures
        exists|a: Seq<ValueView>|
            reads_registers(s, x, a) && #[trigger] parts.computes(s.op, a, t, Ok::<ValueView, Error>(y[s.to])),
        t.len() == 2 * s.op->Mlp_layers,
        is_real_tensor(m.store, s.name + "."@ + decimal(k as nat) + ".w"@, t[2 * k - 2]),
        is_bias_tensor(m.store, s.name + "."@ + decimal(k as nat) + ".b"@, t[2 * k - 1]),
{
    let t = computed(parts, m, s, x, y);
    layer_wanted(s.name, s.op->Mlp_layers as nat, k);
    let w0 = wanted(s)[2 * k - 2];
    let w1 = wanted(s)[2 * k - 1];
    t
}

/// A kernel runs on the registers its step reads, with the weights or the slot
/// of the step's name.
pub proof fn a_kernel_runs_on_its_operands<
    P: Fn(u32, u32) -> u32,
    M: Fn(u32, u32) -> u32,
    E: Fn(&Op, u32) -> u32,
    C: Fn(&Op, &Vec<&Value>, &Vec<Value>) -> Result<Value, Error>,
    D: Fn(&Op, &String, &Vec<&Value>) -> Result<Value, Error>,
>(
    parts: &Parts<P, M, E, C, D>,
    m: ModelView,
    s: StepView,
    x: Map<Reg, ValueView>,
    y: Map<Reg, ValueView>,
)
    requires
        s.op is Gemm || s.op is GemmSlot || s.op is GemmStay || s.op is GemmOn || s.op is Mha || s.op is ConvGemm,
        step_to(parts, m, s, x, y),
    ensures
        exists|a: Seq<ValueView>|
            reads_registers(s, x, a) && #[trigger] parts.launches(s.op, s.name, a, Ok::<ValueView, Error>(y[s.to])),
        forall|q: Reg| q != s.to ==> x.contains_key(q) == y.contains_key(q) && #[trigger] y[q] == x[q],
{
    let a = operands(x, s)->0;
    assert(reads_registers(s, x, a));
    assert(parts.launches(s.op, s.name, a, Ok::<ValueView, Error>(y[s.to])));
}

/// A tensor's step leaves the tensor of its name.
pub proof fn a_tensor_s_step_leaves_the_tensor<
    P: Fn(u32, u32) -> u32,
    M: Fn(u32, u32) -> u32,
    E: Fn(&Op, u32) -> u32,
    C: Fn(&Op, &Vec<&Value>, &Vec<Value>) -> Result<Value, Error>,
    D: Fn(&Op, &String, &Vec<&Value>) -> Result<Value, Error>,
>(
    parts: &Parts<P, M, E, C, D>,
    m: ModelView,
    s: StepView,
    x: Map<Reg, ValueView>,
    y: Map<Reg, ValueView>,
)
    requires
        s.op is Tensor,
        step_to(parts, m, s, x, y),
        lies_inside(m.store),
    ensures
        is_real_tensor(m.store, s.name, y[s.to]),
{
    tensors_are_their_bytes(m.store, plain(s.name), y[s.to]);
}

/// A function goes over every element on its own.
pub proof fn a_function_goes_over_every_element<
    P: Fn(u32, u32) -> u32,
    M: Fn(u32, u32) -> u32,
    E: Fn(&Op, u32) -> u32,
    C: Fn(&Op, &Vec<&Value>, &Vec<Value>) -> Result<Value, Error>,
    D: Fn(&Op, &String, &Vec<&Value>) -> Result<Value, Error>,
>(
    parts: &Parts<P, M, E, C, D>,
    m: ModelView,
    s: StepView,
    x: Map<Reg, ValueView>,
    y: Map<Reg, ValueView>,
    i: int,
)
    requires
        s.op is Relu || s.op is Gelu || s.op is Sigmoid || s.op is Clamp,
        step_to(parts, m, s, x, y),
        s.from.len() == 1,
        x[s.from[0]] is Reals,
        0 <= i < x[s.from[0]]->Reals_0.len(),
    ensures
        y[s.to] is Reals,
        y[s.to]->Reals_0.len() == x[s.from[0]]->Reals_0.len(),
        call_ensures(parts.each, (&s.op, x[s.from[0]]->Reals_0[i]), y[s.to]->Reals_0[i]),
{
    let z = y[s.to]->Reals_0;
    assert(parts.applies(s.op, x[s.from[0]]->Reals_0[i], z[i]));
}

/// On bfloat16 a GELU takes the wide value, and its result is rounded again.
pub proof fn a_gelu_of_halves_is_rounded<
    P: Fn(u32, u32) -> u32,
    M: Fn(u32, u32) -> u32,
    E: Fn(&Op, u32) -> u32,
    C: Fn(&Op, &Vec<&Value>, &Vec<Value>) -> Result<Value, Error>,
    D: Fn(&Op, &String, &Vec<&Value>) -> Result<Value, Error>,
>(
    parts: &Parts<P, M, E, C, D>,
    m: ModelView,
    s: StepView,
    x: Map<Reg, ValueView>,
    y: Map<Reg, ValueView>,
    i: int,
)
    requires
        s.op is GeluHalves,
        step_to(parts, m, s, x, y),
        s.from.len() == 1,
        x[s.from[0]] is Halves,
        0 <= i < x[s.from[0]]->Halves_0.len(),
    ensures
        y[s.to] is Halves,
        y[s.to]->Halves_0.len() == x[s.from[0]]->Halves_0.len(),
        exists|v: u32| #[trigger]
            call_ensures(parts.each, (&Op::Gelu, wide(x[s.from[0]]->Halves_0[i])), v) && y[s.to]->Halves_0[i] == narrow(v),
{
    let z = y[s.to]->Halves_0;
    assert(is_rounded(parts, Op::Gelu, x[s.from[0]]->Halves_0[i], z[i]));
    let v = choose|v: u32| #[trigger] parts.applies(Op::Gelu, wide(x[s.from[0]]->Halves_0[i]), v) && z[i] == narrow(v);
    assert(call_ensures(parts.each, (&Op::Gelu, wide(x[s.from[0]]->Halves_0[i])), v));
}

/// Putting tokens back in raster order puts token `j` where the order of the
/// step's name says.
pub proof fn tokens_return_to_their_places<
    P: Fn(u32, u32) -> u32,
    M: Fn(u32, u32) -> u32,
    E: Fn(&Op, u32) -> u32,
    C: Fn(&Op, &Vec<&Value>, &Vec<Value>) -> Result<Value, Error>,
    D: Fn(&Op, &String, &Vec<&Value>) -> Result<Value, Error>,
>(
    parts: &Parts<P, M, E, C, D>,
    m: ModelView,
    s: StepView,
    x: Map<Reg, ValueView>,
    y: Map<Reg, ValueView>,
    order: Seq<i32>,
    j: int,
    e: int,
)
    requires
        s.op is ToRaster,
        step_to(parts, m, s, x, y),
        s.from.len() == 1,
        x[s.from[0]] is Reals,
        m.store.typed(s.name, DType::I32) matches Ok(b) && order == signed_elems32(b),
        order.no_duplicates(),
        0 <= j < order.len(),
        0 <= e < m.z.vdim,
    ensures
        y[s.to] is Reals,
        y[s.to]->Reals_0.len() == x[s.from[0]]->Reals_0.len(),
        y[s.to]->Reals_0[order[j] * m.z.vdim + e] == x[s.from[0]]->Reals_0[j * m.z.vdim + e],
{
    let v = x[s.from[0]]->Reals_0;
    rows_go_where_told(v, order, m.z.vdim as int, j, e);
    index_bound(order[j] as int, e, order.len() as int, m.z.vdim as int);
}

/// Packing puts the weights of the first register and the biases of the
/// second where kernel `g` reads them.
pub proof fn packing_places_weights_and_biases<
    P: Fn(u32, u32) -> u32,
    M: Fn(u32, u32) -> u32,
    E: Fn(&Op, u32) -> u32,
    C: Fn(&Op, &Vec<&Value>, &Vec<Value>) -> Result<Value, Error>,
    D: Fn(&Op, &String, &Vec<&Value>) -> Result<Value, Error>,
>(
    parts: &Parts<P, M, E, C, D>,
    m: ModelView,
    s: StepView,
    x: Map<Reg, ValueView>,
    y: Map<Reg, ValueView>,
    cb: int,
    kt: int,
    sl: int,
    nb: int,
    kb: int,
    c8: int,
    i: int,
)
    requires
        s.op is Pack,
        step_to(parts, m, s, x, y),
        s.from.len() == 2,
        0 <= cb < m.manifest.gemms[s.op->Pack_kernel.named()].n as int / m.manifest.gemms[s.op->Pack_kernel.named()].tile_n as int,
        0 <= kt < m.manifest.gemms[s.op->Pack_kernel.named()].k as int / m.manifest.gemms[s.op->Pack_kernel.named()].tile_k as int,
        0 <= sl < m.manifest.gemms[s.op->Pack_kernel.named()].tile_k as int / m.manifest.gemms[s.op->Pack_kernel.named()].ct_k as int,
        0 <= nb < m.manifest.gemms[s.op->Pack_kernel.named()].tile_n as int / 8,
        0 <= kb < m.manifest.gemms[s.op->Pack_kernel.named()].ct_k as int / 8,
        0 <= c8 < 8,
        0 <= i < 8,
    ensures
        ({
            let g = m.manifest.gemms[s.op->Pack_kernel.named()];
            let t = tiling_of(g);
            let packed = y[s.to]->Packed_0;
            let row = kt * g.tile_k + sl * g.ct_k + kb * 8 + i;
            let col = cb * g.tile_n + nb * 8 + c8;
            let j = ((((kt * (g.tile_k as int / g.ct_k as int) + sl) * (g.tile_n as int / 8) + nb) * (g.ct_k as int / 8)) + kb) * 8 + c8;
            let at = first_block(true, t, cb) + 9 * j;
            &&& y[s.to] is Packed
            &&& packed[at + 1 + i] as int == mantissa(x[s.from[0]]->Reals_0[row * g.n + col], packed[at] as int) % 256
            &&& packed[at] >= exponent(x[s.from[0]]->Reals_0[row * g.n + col])
            &&& 2 * t.n_tile <= t.chunk() ==> packed[cb * per_column_block(true, t) + 2 * (nb * 8 + c8)] + 256 * packed[cb
                * per_column_block(true, t) + 2 * (nb * 8 + c8) + 1] == narrow(x[s.from[1]]->Reals_0[col])
        }),
{
    let g = m.manifest.gemms[s.op->Pack_kernel.named()];
    let t = tiling_of(g);
    let (b, c) = (x[s.from[0]]->Reals_0, x[s.from[1]]->Reals_0);
    assert((t.n / t.n_tile) as int == g.n as int / g.tile_n as int);
    every_weight_is_in_its_place(b, Some(c), t, cb, kt, sl, nb, kb, c8, i);
    if 2 * t.n_tile <= t.chunk() {
        index_bound(nb, c8, t.n_tile as int / 8, 8);
        every_bias_is_in_its_place(b, c, t, cb, nb * 8 + c8);
    }
}

/// A prompt's mask that is accepted has its valid tokens first, one at least.
pub proof fn valid_tokens_come_first(mask: Seq<u32>, i: int)
    requires
        is_prefix_mask(mask),
        0 <= i < mask.len(),
    ensures
        0 < ones(mask) <= mask.len(),
        mask[i] != 0 <==> i < ones(mask),
{
    ones_are_set(mask, i);
}

proof fn ones_are_set(mask: Seq<u32>, i: int)
    ensures
        ones(mask) <= mask.len(),
        0 <= i < ones(mask) ==> mask[i] != 0,
    decreases mask.len(),
{
    if mask.len() > 0 && mask[0] != 0 {
        let t = mask.skip(1);
        ones_are_set(t, i - 1);
        if i > 0 && i < ones(mask) {
            assert(t[i - 1] == mask[i]);
        }
    }
}

/// When the prompt is encoded, the flags of its valid tokens are there for the
/// later stages: one for each token, set where the mask is.
pub proof fn a_prompt_leaves_its_valid_tokens<
    P: Fn(u32, u32) -> u32,
    M: Fn(u32, u32) -> u32,
    E: Fn(&Op, u32) -> u32,
    C: Fn(&Op, &Vec<&Value>, &Vec<Value>) -> Result<Value, Error>,
    D: Fn(&Op, &String, &Vec<&Value>) -> Result<Value, Error>,
    L: Fn(&Vec<Launch>, &Value, &Value) -> Result<Value, Error>,
>(
    parts: &Parts<P, M, E, C, D>,
    layers: &L,
    m: ModelView,
    i: InputView,
    x: Map<Reg, ValueView>,
    y: Map<Reg, ValueView>,
    k: int,
)
    requires
        stage_to(parts, layers, m, Stage::Text, i, x, Ok::<(), Fault>(()), y),
        0 <= k < i.mask.len(),
    ensures
        i.ids.len() == m.cfg.text_len,
        y.contains_key(Reg::Valid),
        y[Reg::Valid] is Flags,
        y[Reg::Valid]->Flags_0.len() == i.mask.len(),
        y[Reg::Valid]->Flags_0[k] <==> i.mask[k] != 0,
        y[Reg::Valid]->Flags_0[k] <==> k < ones(i.mask),
{
    valid_tokens_come_first(i.mask, k);
    let n = ones(i.mask) as usize;
    let layers_of = m.cfg.text_layers as nat;
    text_spares(m.z, layers_of, n, Reg::Valid);
    let start = x.insert(Reg::Ids, ValueView::Ids(i.ids)).insert(
        Reg::Valid,
        ValueView::Flags(crate::sam3_forward::flags_of(i.mask)),
    );
    unwritten_registers_keep(
        parts,
        m,
        crate::sam3_stages::text_program(m.z, layers_of, n),
        start,
        Ok::<(), Fault>(()),
        y,
        Reg::Valid,
    );
}

/// The sizes of a model hang together: the grid, twice and four times as fine,
/// has four and sixteen times the tokens; heads share out the widths; the
/// neck's levels stand side by side.
pub proof fn sizes_hang_together(c: ConfigView, w: Widths)
    requires
        computable(c, w),
    ensures
        ({
            let z = sizes_of(c, w);
            &&& z.grid == c.grid && z.grid2 == 2 * z.grid && z.grid4 == 2 * z.grid2
            &&& z.tokens == z.grid * z.grid && z.tokens4 == 4 * z.tokens && z.pixels == 4 * z.tokens4
            &&& z.vdim == c.vit_dim && z.vdim3 == 3 * z.vdim && z.vheads == c.vit_heads
            &&& c.vit_dim as int % c.vit_heads as int == 0 ==> z.vheads * z.vhd == z.vdim
            &&& z.vhd - 1 <= 2 * z.vhalf <= z.vhd
            &&& z.s0 == c.neck_splits[0] && z.s01 == z.s0 + c.neck_splits[1] && z.width == z.s01 + c.neck_splits[2]
            &&& z.s0 - 3 <= 4 * z.mid <= z.s0
            &&& z.d == c.d_model && z.d2 == 2 * z.d && z.heads == c.d_heads
            &&& c.d_model as int % c.d_heads as int == 0 ==> z.heads * z.hd == z.d
            &&& z.pd == z.heads * w.mha_d && z.pd2 == 2 * z.pd && z.pd3 == 3 * z.pd
            &&& z.len == c.text_len && z.ffn == c.d_ffn && z.tdim == c.text_dim && z.tdim3 == 3 * z.tdim
            &&& z.theads == c.text_heads && z.tffn == c.text_ffn
            &&& z.queries == c.queries && z.queries1 == z.queries + 1
            &&& z.embed_k == w.embed_k && z.n_up == w.n_up && z.kv == w.kv && z.head_n == w.head_n
            &&& w.conv_k - 1 <= w.conv_lda + 2 * z.conv_d <= w.conv_k
            &&& z.conv_d - 2 <= 3 * z.conv_c <= z.conv_d
        }),
{
    let g = c.grid as int;
    assert((2 * g) * (2 * g) == 4 * (g * g) && (4 * g) * (4 * g) == 16 * (g * g)) by (nonlinear_arith);
    if c.vit_dim as int % c.vit_heads as int == 0 {
        vstd::arithmetic::div_mod::lemma_fundamental_div_mod(c.vit_dim as int, c.vit_heads as int);
    }
    if c.d_model as int % c.d_heads as int == 0 {
        vstd::arithmetic::div_mod::lemma_fundamental_div_mod(c.d_model as int, c.d_heads as int);
    }
    assert(w.mha_d * c.d_heads == c.d_heads * w.mha_d) by (nonlinear_arith);
    assert(0 <= c.vit_dim as int / c.vit_heads as int <= c.vit_dim) by (nonlinear_arith)
        requires
            c.vit_heads > 0,
            c.vit_dim >= 0,
    ;
}

/// Every kernel runs over the rows of the grid, but for the neck's finer
/// level, which has four times as many, and the mask head's, which has the
/// mask's pixels. The second layer of a perceptron reads the first one's
/// output in place. The convolution runs at all three levels.
pub proof fn kernels_run_over_their_rows(g: nat, s: nat, i: int)
    requires
        0 <= i < wants_of(g, s).len(),
    ensures
        match wants_of(g, s)[i] {
            Operand::Plain { key, rows } => rows == (if key == "n_up"@ {
                4 * (g * g)
            } else if key == "m_head"@ {
                s * s
            } else {
                g * g
            }),
            Operand::Chained { key, from } => from < i && (wants_of(g, s)[from as int] matches Operand::Plain { key: first, .. } && (
            key == "v_fc2"@ ==> first == "v_fc1"@) && (key == "d_fc2"@ ==> first == "d_fc1"@) && (key == "v_fc2"@ || key == "d_fc2"@)),
            Operand::Conv { side } => side == g || side == 2 * g || side == 4 * g,
        },
        wants_of(g, s).contains(Operand::Conv { side: g }),
        wants_of(g, s).contains(Operand::Conv { side: 2 * g }),
        wants_of(g, s).contains(Operand::Conv { side: 4 * g }),
{
    reveal_strlit("n_up");
    reveal_strlit("m_head");
    reveal_strlit("v_fc1");
    reveal_strlit("v_fc2");
    reveal_strlit("d_fc1");
    reveal_strlit("d_fc2");
    reveal_strlit("v_embed");
    reveal_strlit("v_qkv");
    reveal_strlit("v_o");
    reveal_strlit("n_in");
    reveal_strlit("d_qkv");
    reveal_strlit("d_o");
    reveal_strlit("d_s");
    reveal_strlit("d_c");
    reveal_strlit("dec_kv");
    let w = wants_of(g, s);
    assert("v_fc1"@[0] == 'v' && "d_fc1"@[0] == 'd' && "v_fc2"@[0] == 'v' && "d_fc2"@[0] == 'd' && "v_embed"@[0] == 'v');
    assert("v_qkv"@[0] == 'v' && "v_o"@[0] == 'v' && "d_qkv"@[0] == 'd' && "d_o"@[0] == 'd' && "d_s"@[0] == 'd' && "d_c"@[0] == 'd');
    assert("dec_kv"@[0] == 'd' && "n_in"@[2] == 'i' && "n_up"@[2] == 'u' && "n_up"@[0] == 'n' && "n_in"@[0] == 'n' && "m_head"@[0] == 'm');
    assert(w[4] == (Operand::Conv { side: g }));
    assert(w[5] == (Operand::Conv { side: 2 * g }));
    assert(w[6] == (Operand::Conv { side: 4 * g }));
}

/// A forward that succeeds encodes the prompt, then the image, brings it to
/// the neck's levels, encodes it with the prompt, decodes the queries and
/// makes the masks, each stage on what the one before left.
pub proof fn a_forward_goes_through_its_stages<
    P: Fn(u32, u32) -> u32,
    M: Fn(u32, u32) -> u32,
    E: Fn(&Op, u32) -> u32,
    C: Fn(&Op, &Vec<&Value>, &Vec<Value>) -> Result<Value, Error>,
    D: Fn(&Op, &String, &Vec<&Value>) -> Result<Value, Error>,
    L: Fn(&Vec<Launch>, &Value, &Value) -> Result<Value, Error>,
>(
    parts: &Parts<P, M, E, C, D>,
    layers: &L,
    m: ModelView,
    i: InputView,
    y: Map<Reg, ValueView>,
) -> (t: Seq<Map<Reg, ValueView>>)
    requires
        segments_to(parts, layers, m, i, Ok::<(), Fault>(()), y),
    ensures
        t.len() == 5,
        stage_to(parts, layers, m, Stage::Text, i, Map::empty(), Ok::<(), Fault>(()), t[0]),
        stage_to(parts, layers, m, Stage::Vit, i, t[0], Ok::<(), Fault>(()), t[1]),
        stage_to(parts, layers, m, Stage::Neck, i, t[1], Ok::<(), Fault>(()), t[2]),
        stage_to(parts, layers, m, Stage::Encoder, i, t[2], Ok::<(), Fault>(()), t[3]),
        stage_to(parts, layers, m, Stage::Decoder, i, t[3], Ok::<(), Fault>(()), t[4]),
        stage_to(parts, layers, m, Stage::Masks, i, t[4], Ok::<(), Fault>(()), y),
{
    let (tr, n) = choose|tr: Seq<Map<Reg, ValueView>>, n: int| #[trigger]
        stage_trace(parts, layers, m, i, tr, n) && n == stages().len() && y == tr.last();
    let t = tr.subrange(1, 6);
    assert forall|k: int| 0 <= k < 6 implies stage_to(parts, layers, m, #[trigger] stages()[k], i, tr[k], Ok::<(), Fault>(()), tr[k + 1]) by {
        let next = tr[k + 1];
    }
    assert(stages()[0] == Stage::Text && stages()[1] == Stage::Vit && stages()[2] == Stage::Neck);
    assert(stages()[3] == Stage::Encoder && stages()[4] == Stage::Decoder && stages()[5] == Stage::Masks);
    assert(t[0] == tr[1] && t[1] == tr[2] && t[2] == tr[3] && t[3] == tr[4] && t[4] == tr[5] && tr[6] == y);
    t
}

} // verus!
