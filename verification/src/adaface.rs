//! The IR face embedder: replays the steps of a bundle.
//!
//! Convolutions run on the device, which the caller reaches through a
//! closure; single-precision sums and products come from the caller too
//! (`Ops`). Every other part of a forward -- the slicing, padding and
//! cropping around each dispatch, the per-channel glue, the residual adds
//! and the head -- is here.

use crate::adaface_steps::{
    buffers_after, parse_steps, runnable, runnable_buffers_wf, step_views, steps_of, tileable, Buffers, Conv, ConvView,
    Shape, Step, StepView,
};
use crate::arith::{index_bound, mul3};
use crate::bf16::{bf16_to_f32, wide};
use crate::gather::{widen, widened};
use crate::manifest::{self, join, joined, manifest_of, Manifest, ManifestView};
use crate::store::{elems16, elems32, store_of, DType, Store, StoreView};
use crate::text::{cat2, cat3, decimal, decimal_of};
use crate::tiled::{
    add_tiled, affine_tiled, bias_tiled, channel_of, crop, cropped, planar, prelu_bias_tiled, slice_groups_wpad, sliced,
    subsample_tiled, subsampled, tile_image, tile_len, tile_len_is, tiled_image, tiled_to_nchw, Buf, Ops,
};
use std::collections::HashMap;
use vstd::prelude::*;

verus! {

broadcast use vstd::std_specs::hash::group_hash_axioms;

/// The bundle format version this runtime reads.
pub const BUNDLE_VERSION: u32 = 1;

/// Everything that can go wrong loading a bundle or running a forward.
#[derive(Debug)]
pub enum Error {
    /// A bundle file could not be read: its path, and the system's message.
    Io(String, String),
    /// The bundle is malformed or inconsistent: a bad manifest record, a
    /// missing or mis-sized tensor, a step reading an undefined buffer.
    Plan(String),
    /// The device reported an error.
    Xrt(String),
    /// The caller-supplied input tensor has the wrong shape.
    Input(String),
}

impl Error {
    /// The text shown for an error.
    pub open spec fn shown(&self) -> Seq<char> {
        match self {
            Error::Io(p, e) => "cannot read "@ + p@ + ": "@ + e@,
            Error::Plan(s) => "bad bundle: "@ + s@,
            Error::Xrt(s) => "XRT: "@ + s@,
            Error::Input(s) => "bad input: "@ + s@,
        }
    }

    pub fn message(&self) -> (r: String)
        ensures
            r@ == self.shown(),
    {
        match self {
            Error::Io(p, e) => cat2("cannot read ", p.as_str()).concat(": ").concat(e.as_str()),
            Error::Plan(s) => cat2("bad bundle: ", s.as_str()),
            Error::Xrt(s) => cat2("XRT: ", s.as_str()),
            Error::Input(s) => cat2("bad input: ", s.as_str()),
        }
    }
}

pub open spec fn plan_error(e: Error, m: Seq<char>) -> bool {
    e matches Error::Plan(s) && s@ == m
}

/// `e` says that the file `path` could not be read, and `why`.
pub open spec fn unread(e: Error, path: Seq<char>, why: Seq<char>) -> bool {
    e matches Error::Io(p, m) && p@ == path && m@ == why
}

pub open spec fn input_error(e: Error, m: Seq<char>) -> bool {
    e matches Error::Input(s) && s@ == m
}

/// What `e`, an error of a bundle file, is to the embedder.
pub open spec fn lifted(e: manifest::Error, r: Error) -> bool {
    match e {
        manifest::Error::Io(p, m) => r == Error::Io(p, m),
        manifest::Error::Format(m) => r == Error::Plan(m),
    }
}

fn lift(e: manifest::Error) -> (r: Error)
    ensures
        lifted(e, r),
{
    match e {
        manifest::Error::Io(p, m) => Error::Io(p, m),
        manifest::Error::Format(m) => Error::Plan(m),
    }
}

// ----------------------------------------------------------------------------
// The embedder
// ----------------------------------------------------------------------------

/// The shapes of the input steps, in order.
pub open spec fn inputs_of(s: Seq<StepView>) -> Seq<Shape>
    decreases s.len(),
{
    if s.len() == 0 {
        seq![]
    } else {
        match s.last() {
            StepView::Input { c, h, w, .. } => inputs_of(s.drop_last()).push((c, h, w)),
            _ => inputs_of(s.drop_last()),
        }
    }
}

/// The number of convolution steps.
pub open spec fn convs_of(s: Seq<StepView>) -> nat
    decreases s.len(),
{
    if s.len() == 0 {
        0
    } else {
        convs_of(s.drop_last()) + (if s.last() is Conv {
            1nat
        } else {
            0
        })
    }
}

pub struct EmbedderView {
    pub steps: Seq<StepView>,
    pub store: StoreView,
    pub model: Option<Seq<char>>,
    /// The stem's channels (padded to a multiple of eight), height, width.
    pub input: Shape,
    pub embed_dim: usize,
}

/// The embedder that manifest `m` and store `st` are.
pub open spec fn assembled(m: ManifestView, st: StoreView) -> Result<EmbedderView, Seq<char>> {
    match steps_of(m, st, m.records) {
        Err(e) => Err(e),
        Ok(s) => if inputs_of(s).len() != 1 {
            Err("the bundle needs exactly one input step"@)
        } else if s.len() == 0 {
            Err("the bundle's last step is not a head"@)
        } else {
            match s.last() {
                StepView::Head { n, .. } => Ok(
                    EmbedderView {
                        steps: s,
                        store: st,
                        model: if m.params.contains_key("model"@) {
                            Some(m.params["model"@])
                        } else {
                            None
                        },
                        input: inputs_of(s)[0],
                        embed_dim: n,
                    },
                ),
                _ => Err("the bundle's last step is not a head"@),
            }
        },
    }
}

/// What reading the bundle in `dir` comes to: its manifest (the text, or the
/// system's word on why it could not be read), whether that file and an old
/// `plan.txt` are there, its tensor index and its blob.
pub open spec fn loads(
    dir: Seq<char>,
    manifest: Result<Seq<char>, Seq<char>>,
    has_manifest: bool,
    has_plan: bool,
    index: Seq<char>,
    data: Seq<u8>,
    r: Result<EmbedderView, Error>,
) -> bool {
    if !has_manifest && has_plan {
        r matches Err(e) && plan_error(
            e,
            dir + " is an old plan.txt bundle; re-export it with export_ir18.py / export_ir101.py"@,
        )
    } else {
        match manifest {
            Err(why) => r matches Err(e) && unread(e, joined(dir, "manifest.txt"@), why),
            Ok(text) => match embedder_of(dir, text, index, data) {
                Err(m) => r matches Err(e) && plan_error(e, m),
                Ok(v) => r == Ok::<EmbedderView, Error>(v),
            },
        }
    }
}

/// The embedder of the bundle in `dir` with this manifest, tensor index and
/// blob.
pub open spec fn embedder_of(dir: Seq<char>, text: Seq<char>, index: Seq<char>, data: Seq<u8>) -> Result<
    EmbedderView,
    Seq<char>,
> {
    match manifest_of(dir, text, BUNDLE_VERSION) {
        Err(e) => Err(e),
        Ok(m) => match store_of(index, data) {
            Err(e) => Err(e),
            Ok(st) => assembled(m, st),
        },
    }
}

pub open spec fn texts_of(r: Result<&str, &str>) -> Result<Seq<char>, Seq<char>> {
    match r {
        Ok(t) => Ok(t@),
        Err(e) => Err(e@),
    }
}

pub open spec fn embedder_view(r: Result<IrEmbedder, Error>) -> Result<EmbedderView, Error> {
    match r {
        Ok(x) => Ok(x@),
        Err(e) => Err(e),
    }
}

/// One exported IR bundle, read and checked.
pub struct IrEmbedder {
    store: Store,
    steps: Vec<Step>,
    model: Option<String>,
    in_c: usize,
    in_h: usize,
    in_w: usize,
    embed_dim: usize,
}

impl View for IrEmbedder {
    type V = EmbedderView;

    closed spec fn view(&self) -> EmbedderView {
        EmbedderView {
            steps: step_views(self.steps@),
            store: self.store@,
            model: match self.model {
                Some(s) => Some(s@),
                None => None,
            },
            input: (self.in_c, self.in_h, self.in_w),
            embed_dim: self.embed_dim,
        }
    }
}

proof fn input_is_allowed(s: Seq<StepView>, st: StoreView)
    requires
        runnable(s, st),
        inputs_of(s).len() > 0,
    ensures
        ({
            let d = inputs_of(s)[0];
            d.0 > 0 && d.1 > 0 && d.2 > 0 && tileable(d)
        }),
    decreases s.len(),
{
    let t = s.drop_last();
    assert(runnable(t, st)) by {
        assert forall|i: int| 0 <= i < t.len() implies buffers_after(t.take(i)).allow(#[trigger] t[i], st) by {
            assert(t.take(i) =~= s.take(i));
            assert(t[i] == s[i]);
        }
    }
    if inputs_of(t).len() > 0 {
        input_is_allowed(t, st);
    }
    let last = s[s.len() - 1];
    assert(buffers_after(s.take(s.len() - 1)).allow(last, st));
}

impl IrEmbedder {
    /// The steps, as values.
    pub closed spec fn plan(&self) -> Seq<Step> {
        self.steps@
    }

    #[verifier::type_invariant]
    spec fn wf(&self) -> bool {
        &&& runnable(step_views(self.steps@), self.store@)
        &&& self.in_c > 0 && self.in_h > 0 && self.in_w > 0
        &&& tileable((self.in_c, self.in_h, self.in_w))
    }

    fn assemble(m: &Manifest, store: Store) -> (r: Result<IrEmbedder, Error>)
        ensures
            match (r, assembled(m@, store@)) {
                (Ok(x), Ok(v)) => x@ == v,
                (Err(e), Err(msg)) => plan_error(e, msg),
                _ => false,
            },
    {
        let steps = match parse_steps(m, &store) {
            Ok(s) => s,
            Err(e) => return Err(lift(e)),
        };
        let ghost all = step_views(steps@);
        let mut count: usize = 0;
        let mut input: Shape = (0, 0, 0);
        let mut i: usize = 0;
        while i < steps.len()
            invariant
                i <= steps@.len(),
                all == step_views(steps@),
                count <= i,
                count == inputs_of(all.take(i as int)).len(),
                count > 0 ==> input == inputs_of(all.take(i as int))[0],
            decreases steps@.len() - i,
        {
            proof {
                assert(all.take(i + 1).drop_last() =~= all.take(i as int));
                assert(all.take(i + 1).last() == steps@[i as int]@);
            }
            if let Step::Input { c, h, w, .. } = &steps[i] {
                if count == 0 {
                    input = (*c, *h, *w);
                }
                count += 1;
            }
            i += 1;
        }
        proof {
            assert(all.take(i as int) =~= all);
        }
        if count != 1 {
            return Err(Error::Plan("the bundle needs exactly one input step".to_owned()));
        }
        if steps.len() == 0 {
            return Err(Error::Plan("the bundle's last step is not a head".to_owned()));
        }
        proof {
            assert(all.last() == steps@[steps@.len() - 1]@);
            input_is_allowed(all, store@);
        }
        let embed_dim: usize = match &steps[steps.len() - 1] {
            Step::Head { n, .. } => *n,
            _ => return Err(Error::Plan("the bundle's last step is not a head".to_owned())),
        };
        let model = match m.param("model") {
            Ok(v) => Some(v.to_owned()),
            Err(_) => None,
        };
        Ok(IrEmbedder { store, steps, model, in_c: input.0, in_h: input.1, in_w: input.2, embed_dim })
    }

    /// Reads and checks a bundle: the manifest and every tensor.
    pub fn load(
        dir: &str,
        manifest: Result<&str, &str>,
        has_manifest: bool,
        has_plan: bool,
        index: &str,
        data: Vec<u8>,
    ) -> (r: Result<IrEmbedder, Error>)
        ensures
            loads(dir@, texts_of(manifest), has_manifest, has_plan, index@, data@, embedder_view(r)),
    {
        if !has_manifest && has_plan {
            return Err(
                Error::Plan(
                    cat2(dir, " is an old plan.txt bundle; re-export it with export_ir18.py / export_ir101.py"),
                ),
            );
        }
        let text = match manifest {
            Ok(t) => t,
            Err(why) => {
                return Err(Error::Io(join(dir, "manifest.txt"), why.to_owned()));
            },
        };
        let m = match Manifest::load(dir, text, BUNDLE_VERSION) {
            Ok(m) => m,
            Err(e) => return Err(lift(e)),
        };
        let store = match Store::load(index, data) {
            Ok(s) => s,
            Err(e) => return Err(lift(e)),
        };
        Self::assemble(&m, store)
    }

    /// Stem input dims as recorded in the bundle: channels (padded to a
    /// multiple of eight), height, width.
    pub fn input_dims(&self) -> (r: (usize, usize, usize))
        ensures
            r == self@.input,
    {
        (self.in_c, self.in_h, self.in_w)
    }

    /// Output embedding dimension.
    pub fn embed_dim(&self) -> (r: usize)
        ensures
            r == self@.embed_dim,
    {
        self.embed_dim
    }

    /// The network the bundle holds (its `model` param).
    pub fn model(&self) -> (r: Option<&str>)
        ensures
            match r {
                Some(s) => self@.model == Some(s@),
                None => self@.model is None,
            },
    {
        match &self.model {
            Some(s) => Some(s.as_str()),
            None => None,
        }
    }

    /// The tensors of the bundle.
    pub fn tensors(&self) -> (r: &Store)
        ensures
            r@ == self@.store,
    {
        &self.store
    }

    /// Device dispatches per forward (a fixed property of the bundle).
    pub fn num_conv_dispatches(&self) -> (r: usize)
        ensures
            r == convs_of(self@.steps),
    {
        let ghost all = self@.steps;
        let mut n: usize = 0;
        let mut i: usize = 0;
        while i < self.steps.len()
            invariant
                i <= self.steps@.len(),
                all == step_views(self.steps@),
                n <= i,
                n == convs_of(all.take(i as int)),
            decreases self.steps@.len() - i,
        {
            proof {
                assert(all.take(i + 1).drop_last() =~= all.take(i as int));
                assert(all.take(i + 1).last() == self.steps@[i as int]@);
            }
            if let Step::Conv(_) = &self.steps[i] {
                n += 1;
            }
            i += 1;
        }
        proof {
            assert(all.take(i as int) =~= all);
        }
        n
    }
}

/// The tiled stem input of the channel-major image `chw` of any number of
/// whole channels up to the stem's; the remaining stem channels are zero.
pub open spec fn stem_input(input: Shape, chw: Seq<u32>) -> Result<Seq<u16>, Seq<char>> {
    let plane = (input.1 * input.2) as nat;
    if chw.len() == 0 || chw.len() % plane != 0 {
        Err("length "@ + decimal(chw.len()) + " is not a multiple of h*w = "@ + decimal(plane))
    } else if chw.len() / plane > input.0 {
        Err(
            decimal(chw.len() / plane) + " channels, but the bundle's stem takes at most "@ + decimal(input.0 as nat),
        )
    } else {
        Ok(tiled_image(chw, input.0 as int, input.1 as int, input.2 as int))
    }
}

impl IrEmbedder {
    /// Tiles a caller's image for the stem, rounding to bfloat16.
    pub fn tile_input(&self, chw: &[u32]) -> (r: Result<Vec<u16>, Error>)
        ensures
            match (r, stem_input(self@.input, chw@)) {
                (Ok(v), Ok(s)) => v@ == s,
                (Err(e), Err(m)) => input_error(e, m),
                _ => false,
            },
            r matches Ok(v) ==> v@.len() == self@.input.0 * self@.input.1 * self@.input.2,
    {
        proof {
            use_type_invariant(self);
        }
        let ghost (c, h, w) = (self.in_c as int, self.in_h as int, self.in_w as int);
        proof {
            assert(0 < h * w <= c * h * w) by (nonlinear_arith)
                requires
                    c >= 1,
                    h >= 1,
                    w >= 1,
            ;
            assert(c * h * w == c * (h * w)) by (nonlinear_arith);
            tile_len_is(c, h, w);
        }
        let plane: usize = self.in_h * self.in_w;
        let n: usize = chw.len();
        if n == 0 || n % plane != 0 {
            let a = decimal_of(n as u128);
            let b = decimal_of(plane as u128);
            return Err(
                Error::Input(cat3("length ", a.as_str(), " is not a multiple of h*w = ").concat(b.as_str())),
            );
        }
        let ch: usize = n / plane;
        if ch > self.in_c {
            let a = decimal_of(ch as u128);
            let b = decimal_of(self.in_c as u128);
            return Err(
                Error::Input(
                    cat2(a.as_str(), " channels, but the bundle's stem takes at most ").concat(b.as_str()),
                ),
            );
        }
        proof {
            vstd::arithmetic::div_mod::lemma_fundamental_div_mod(n as int, plane as int);
            assert(n <= c * (h * w)) by (nonlinear_arith)
                requires
                    n == plane * ch + 0,
                    plane == h * w,
                    0 <= ch <= c,
                    plane >= 0,
            ;
        }
        let b = tile_image(chw, self.in_c, self.in_h, self.in_w);
        Ok(b.v)
    }
}

// ----------------------------------------------------------------------------
// A forward
// ----------------------------------------------------------------------------

/// What a forward holds between two steps: the buffers, the sums of the
/// convolutions under way (single precision), and the last embedding.
pub struct RunView {
    pub bufs: Map<u32, Buf>,
    pub accs: Map<u32, Seq<u32>>,
    pub embed: Seq<u32>,
}

/// The state of a forward.
pub struct Run {
    pub bufs: HashMap<u32, Buf>,
    pub accs: HashMap<u32, Vec<u32>>,
    pub embed: Vec<u32>,
}

impl View for Run {
    type V = RunView;

    open spec fn view(&self) -> RunView {
        RunView {
            bufs: self.bufs@,
            accs: self.accs@.map_values(|v: Vec<u32>| v@),
            embed: self.embed@,
        }
    }
}

pub open spec fn shape_of(b: Buf) -> Shape {
    (b.c, b.h, b.w)
}

impl RunView {
    /// The buffers and accumulators are those the steps so far define.
    pub open spec fn holds(self, b: Buffers) -> bool {
        &&& forall|id: u32| #[trigger]
            b.shapes.contains_key(id) ==> self.bufs.contains_key(id) && self.bufs[id].wf() && shape_of(self.bufs[id])
                == b.shapes[id]
        &&& forall|id: u32| #[trigger] self.accs.contains_key(id) <==> b.accs.contains_key(id)
        &&& forall|id: u32| #[trigger] b.accs.contains_key(id) ==> self.accs[id].len() == b.accs[id]
    }
}

/// The elements of a bfloat16 tensor.
pub open spec fn tensor16(st: StoreView, name: Seq<char>) -> Seq<u16> {
    elems16(st.typed(name, DType::Bf16)->Ok_0)
}

/// The elements of a single-precision tensor, as bits.
pub open spec fn tensor32(st: StoreView, name: Seq<char>) -> Seq<u32> {
    elems32(st.typed(name, DType::F32)->Ok_0)
}

/// Where the device's answer to a dispatch goes: buffer `out` of `oc`
/// channels and `oh` rows, `owp` columns wide on the device and `ow` in the
/// buffer, summed up from the `first` dispatch to the `last`.
#[derive(Debug, Clone, Copy)]
pub struct Sink {
    pub out: u32,
    pub oc: usize,
    pub oh: usize,
    pub ow: usize,
    pub owp: usize,
    pub first: bool,
    pub last: bool,
}

pub open spec fn sink_of(cv: ConvView) -> Sink {
    Sink { out: cv.out, oc: cv.oc, oh: cv.oh, ow: cv.ow, owp: cv.owp, first: cv.first, last: cv.last }
}

/// What the accumulator of a dispatch holds before its part is added.
pub open spec fn acc_before(x: RunView, cv: Sink) -> Seq<u32> {
    let have = if x.accs.contains_key(cv.out) {
        x.accs[cv.out]
    } else {
        Seq::new((cv.oc * cv.oh * cv.owp) as nat, |i: int| 0u32)
    };
    if cv.first {
        Seq::new(have.len(), |i: int| 0u32)
    } else {
        have
    }
}

impl<A: Fn(u32, u32) -> u32, M: Fn(u32, u32) -> u32> Ops<A, M> {
    /// `r` is `a` with `part` added, element by element as far as both go.
    pub open spec fn accumulated(&self, a: Seq<u32>, part: Seq<u16>, r: Seq<u32>) -> bool {
        &&& r.len() == a.len()
        &&& forall|i: int| #![trigger r[i]]
            0 <= i < a.len() ==> if i < part.len() {
                self.sum(a[i], wide(part[i]), r[i])
            } else {
                r[i] == a[i]
            }
    }

    /// `r` is `init` plus the products of the first `k` inputs with column
    /// `j` of the weights (`n` columns), added in order.
    pub open spec fn column(&self, init: u32, flat: Seq<u32>, bt: Seq<u32>, n: int, j: int, k: int, r: u32) -> bool
        decreases k,
    {
        if k <= 0 {
            r == init
        } else {
            exists|q: u32, p: u32| #![trigger self.sum(q, p, r)]
                self.column(init, flat, bt, n, j, k - 1, q) && self.product(flat[k - 1], bt[(k - 1) * n + j], p)
                    && self.sum(q, p, r)
        }
    }
}

/// The device's answer `part` to dispatch `cv` takes state `x` to `y`.
pub open spec fn conv_to<A: Fn(u32, u32) -> u32, M: Fn(u32, u32) -> u32>(
    ops: &Ops<A, M>,
    cv: Sink,
    part: Seq<u16>,
    x: RunView,
    y: RunView,
) -> bool {
    &&& y.accs.contains_key(cv.out)
    &&& ops.accumulated(acc_before(x, cv), part, y.accs[cv.out])
    &&& y.accs == x.accs.insert(cv.out, y.accs[cv.out])
    &&& y.embed == x.embed
    &&& if cv.last {
        &&& y.bufs == x.bufs.insert(cv.out, y.bufs[cv.out])
        &&& y.bufs[cv.out].wf() && shape_of(y.bufs[cv.out]) == (cv.oc, cv.oh, cv.ow)
        &&& y.bufs[cv.out].v@ == cropped(
            y.accs[cv.out],
            cv.oc as int / 8,
            cv.oh as int,
            cv.owp as int,
            cv.ow as int,
        )
    } else {
        y.bufs == x.bufs
    }
}

/// `y` is `x` with buffer `id` defined anew.
pub open spec fn defines(x: RunView, y: RunView, id: u32) -> bool {
    y.bufs == x.bufs.insert(id, y.bufs[id]) && y.accs == x.accs && y.embed == x.embed
}

/// Step `s` on the host takes state `x` to `y`; `input` overrides the
/// recorded input.
pub open spec fn host_to<A: Fn(u32, u32) -> u32, M: Fn(u32, u32) -> u32>(
    ops: &Ops<A, M>,
    st: StoreView,
    input: Option<Seq<u16>>,
    s: StepView,
    x: RunView,
    y: RunView,
) -> bool {
    match s {
        StepView::Input { buf, c, h, w, tensor } => defines(x, y, buf) && y.bufs[buf].wf()
            && shape_of(y.bufs[buf]) == (c, h, w) && y.bufs[buf].v@ == (match input {
            Some(t) => t,
            None => tensor16(st, tensor),
        }),
        StepView::Conv(_) => false,
        StepView::Affine { input: from, out, scale, shift } => defines(x, y, out) && affine_is(
            ops, x.bufs[from], tensor16(st, scale), tensor16(st, shift),
            y.bufs[out],
        ),
        StepView::PreluBias { buf, alpha, bias } => defines(x, y, buf) && prelu_is(
            ops, x.bufs[buf], tensor16(st, alpha), tensor16(st, bias),
            y.bufs[buf],
        ),
        StepView::Bias { buf, bias } => defines(x, y, buf) && bias_is(
            ops, x.bufs[buf], tensor16(st, bias),
            y.bufs[buf],
        ),
        StepView::Subsample { input: from, out, stride } => defines(x, y, out) && subsample_is(
            x.bufs[from], stride,
            y.bufs[out],
        ),
        StepView::Add { a, b: other, out } => defines(x, y, out) && sum_is(
            ops, x.bufs[a], x.bufs[other],
            y.bufs[out],
        ),
        StepView::Head { input: from, k, n, bt, b2 } => {
            &&& y.bufs == x.bufs && y.accs == x.accs
            &&& y.embed.len() == n
            &&& forall|j: int| #![trigger y.embed[j]]
                0 <= j < n ==> ops.column(
                    tensor32(st, b2)[j],
                    planar(&x.bufs[from]),
                    widened(tensor16(st, bt)),
                    n as int,
                    j,
                    k as int,
                    y.embed[j],
                )
        },
    }
}

/// `b` is `scale * src + shift`, channel by channel.
pub open spec fn affine_is<A: Fn(u32, u32) -> u32, M: Fn(u32, u32) -> u32>(
    ops: &Ops<A, M>,
    src: Buf,
    scale: Seq<u16>,
    shift: Seq<u16>,
    b: Buf,
) -> bool {
    b.wf() && b.same_shape(&src) && forall|i: int| #![trigger b.v@[i]]
        0 <= i < b.v@.len() ==> ops.affine(
            src.v@[i],
            scale[channel_of(i, src.c as int, src.w as int)],
            shift[channel_of(i, src.c as int, src.w as int)],
            b.v@[i],
        )
}

/// `b` is the PReLU of `src + bias`, channel by channel.
pub open spec fn prelu_is<A: Fn(u32, u32) -> u32, M: Fn(u32, u32) -> u32>(
    ops: &Ops<A, M>,
    src: Buf,
    alpha: Seq<u16>,
    bias: Seq<u16>,
    b: Buf,
) -> bool {
    b.wf() && b.same_shape(&src) && forall|i: int| #![trigger b.v@[i]]
        0 <= i < b.v@.len() ==> ops.prelu_bias(
            src.v@[i],
            alpha[channel_of(i, src.c as int, src.w as int)],
            bias[channel_of(i, src.c as int, src.w as int)],
            b.v@[i],
        )
}

/// `b` is `src + bias`, channel by channel.
pub open spec fn bias_is<A: Fn(u32, u32) -> u32, M: Fn(u32, u32) -> u32>(
    ops: &Ops<A, M>,
    src: Buf,
    bias: Seq<u16>,
    b: Buf,
) -> bool {
    b.wf() && b.same_shape(&src) && forall|i: int| #![trigger b.v@[i]]
        0 <= i < b.v@.len() ==> ops.plus16(src.v@[i], bias[channel_of(i, src.c as int, src.w as int)], b.v@[i])
}

/// `b` is every `stride`th row and column of `src`.
pub open spec fn subsample_is(src: Buf, stride: usize, b: Buf) -> bool {
    b.wf() && b.c == src.c && b.h == src.h / stride && b.w == src.w / stride && b.v@ == subsampled(&src, stride as int)
}

/// `b` is `l + r`, element by element.
pub open spec fn sum_is<A: Fn(u32, u32) -> u32, M: Fn(u32, u32) -> u32>(
    ops: &Ops<A, M>,
    l: Buf,
    r: Buf,
    b: Buf,
) -> bool {
    b.wf() && b.same_shape(&l) && forall|i: int| #![trigger b.v@[i]]
        0 <= i < b.v@.len() ==> ops.plus16(l.v@[i], r.v@[i], b.v@[i])
}

/// The arguments of dispatch `cv` in state `x`: the sliced and padded
/// input, and the weights.
pub open spec fn dispatch_args(st: StoreView, x: RunView, cv: ConvView, inp: Seq<u16>, wt: Seq<u16>) -> bool {
    &&& inp == sliced(&x.bufs[cv.input], cv.c0 as int, cv.icg as int / 8, cv.wp as int)
    &&& wt == tensor16(st, cv.wt)
}

/// Dispatch `cv` takes state `x` to `y`: the device answered.
pub open spec fn dispatch_to<
    A: Fn(u32, u32) -> u32,
    M: Fn(u32, u32) -> u32,
    D: Fn(&Conv, &Vec<u16>, &Vec<u16>, usize) -> Result<Vec<u16>, Error>,
>(ops: &Ops<A, M>, dev: &D, st: StoreView, cv: Conv, n: usize, x: RunView, y: RunView) -> bool {
    exists|inp: Vec<u16>, wt: Vec<u16>, part: Vec<u16>|
        dispatch_args(st, x, cv@, inp@, wt@) && #[trigger] call_ensures(dev, (&cv, &inp, &wt, n), Ok(part)) && conv_to(
            ops,
            sink_of(cv@),
            part@,
            x,
            y,
        )
}

/// The device refuses dispatch `cv` in state `x` with `e`.
pub open spec fn dispatch_fails<D: Fn(&Conv, &Vec<u16>, &Vec<u16>, usize) -> Result<Vec<u16>, Error>>(
    dev: &D,
    st: StoreView,
    cv: Conv,
    n: usize,
    x: RunView,
    e: Error,
) -> bool {
    exists|inp: Vec<u16>, wt: Vec<u16>|
        dispatch_args(st, x, cv@, inp@, wt@) && #[trigger] call_ensures(dev, (&cv, &inp, &wt, n), Err(e))
}

/// One step of a forward takes state `x` to `y`; `dev` runs the
/// convolutions.
pub open spec fn step_to<
    A: Fn(u32, u32) -> u32,
    M: Fn(u32, u32) -> u32,
    D: Fn(&Conv, &Vec<u16>, &Vec<u16>, usize) -> Result<Vec<u16>, Error>,
>(ops: &Ops<A, M>, dev: &D, st: StoreView, input: Option<Seq<u16>>, s: Step, x: RunView, y: RunView) -> bool {
    match s {
        Step::Conv(cv) => dispatch_to(ops, dev, st, cv, (cv.oc * cv.oh * cv.owp) as usize, x, y),
        _ => host_to(ops, st, input, s@, x, y),
    }
}

/// Step `s` fails in state `x` with `e`: the device refused the dispatch,
/// or the caller's input has not the length the input step says.
pub open spec fn step_fails<D: Fn(&Conv, &Vec<u16>, &Vec<u16>, usize) -> Result<Vec<u16>, Error>>(
    dev: &D,
    st: StoreView,
    input: Option<Seq<u16>>,
    s: Step,
    x: RunView,
    e: Error,
) -> bool {
    match s {
        Step::Conv(cv) => dispatch_fails(dev, st, cv, (cv.oc * cv.oh * cv.owp) as usize, x, e),
        Step::Input { c, h, w, .. } => input matches Some(t) && t.len() != c * h * w && input_error(
            e,
            "tiled input length "@ + decimal(t.len()) + " != "@ + decimal((c * h * w) as nat),
        ),
        _ => false,
    }
}

/// `tr` are the states before and after each of the first `n` steps.
pub open spec fn trace<
    A: Fn(u32, u32) -> u32,
    M: Fn(u32, u32) -> u32,
    D: Fn(&Conv, &Vec<u16>, &Vec<u16>, usize) -> Result<Vec<u16>, Error>,
>(
    ops: &Ops<A, M>,
    dev: &D,
    st: StoreView,
    input: Option<Seq<u16>>,
    steps: Seq<Step>,
    tr: Seq<RunView>,
    n: int,
) -> bool {
    &&& tr.len() == n + 1
    &&& tr[0] == (RunView { bufs: Map::empty(), accs: Map::empty(), embed: seq![] })
    &&& forall|i: int| #![trigger tr[i + 1]] 0 <= i < n ==> step_to(ops, dev, st, input, steps[i], tr[i], tr[i + 1])
}

pub(crate) fn zeros(n: usize) -> (r: Vec<u32>)
    ensures
        r@ == Seq::new(n as nat, |i: int| 0u32),
{
    let mut r: Vec<u32> = Vec::new();
    let mut i: usize = 0;
    while i < n
        invariant
            i <= n,
            r@ == Seq::new(i as nat, |i: int| 0u32),
        decreases n - i,
    {
        r.push(0);
        i += 1;
        proof {
            assert(r@ =~= Seq::new(i as nat, |i: int| 0u32));
        }
    }
    r
}

/// The head: `b2` plus `flat` times the weights, in order.
pub fn head<A: Fn(u32, u32) -> u32, M: Fn(u32, u32) -> u32>(
    flat: &Vec<u32>,
    bt: &Vec<u32>,
    b2: &Vec<u32>,
    k: usize,
    n: usize,
    ops: &Ops<A, M>,
) -> (e: Vec<u32>)
    requires
        flat@.len() >= k,
        bt@.len() >= k * n,
        b2@.len() >= n,
        ops.total(),
    ensures
        e@.len() == b2@.len(),
        forall|j: int| #![trigger e@[j]]
            0 <= j < n ==> ops.column(b2@[j], flat@, bt@, n as int, j, k as int, e@[j]),
        forall|j: int| #![trigger e@[j]] n <= j < e@.len() ==> e@[j] == b2@[j],
{
    let total: usize = bt.len();
    let mut e: Vec<u32> = Vec::new();
    let mut j: usize = 0;
    while j < b2.len()
        invariant
            j <= b2@.len(),
            e@ == b2@.take(j as int),
        decreases b2@.len() - j,
    {
        e.push(b2[j]);
        j += 1;
        proof {
            assert(e@ =~= b2@.take(j as int));
        }
    }
    proof {
        assert(b2@.take(b2@.len() as int) =~= b2@);
    }
    let mut i: usize = 0;
    while i < k
        invariant
            i <= k,
            flat@.len() >= k,
            bt@.len() >= k * n,
            total == bt@.len(),
            e@.len() == b2@.len(),
            b2@.len() >= n,
            ops.total(),
            forall|j: int| #![trigger e@[j]] n <= j < e@.len() ==> e@[j] == b2@[j],
            forall|j: int| #![trigger e@[j]]
                0 <= j < n ==> ops.column(b2@[j], flat@, bt@, n as int, j, i as int, e@[j]),
        decreases k - i,
    {
        let f: u32 = flat[i];
        let ghost before = e@;
        let mut j: usize = 0;
        while j < n
            invariant
                j <= n,
                i < k,
                flat@.len() >= k,
                f == flat@[i as int],
                bt@.len() >= k * n,
                total == bt@.len(),
                e@.len() == b2@.len(),
                b2@.len() >= n,
                before.len() == b2@.len(),
                ops.total(),
                forall|j: int| #![trigger e@[j]] n <= j < e@.len() ==> e@[j] == b2@[j],
                forall|c: int| #![trigger before[c]]
                    0 <= c < n ==> ops.column(b2@[c], flat@, bt@, n as int, c, i as int, before[c]),
                forall|c: int| #![trigger e@[c]] j <= c < n ==> e@[c] == before[c],
                forall|c: int| #![trigger e@[c]]
                    0 <= c < j ==> ops.column(b2@[c], flat@, bt@, n as int, c, i + 1, e@[c]),
            decreases n - j,
        {
            proof {
                index_bound(i as int, j as int, k as int, n as int);
                assert(0 <= i * n) by (nonlinear_arith)
                    requires
                        i >= 0,
                        n >= 0,
                ;
            }
            let p: u32 = ops.times(f, bt[i * n + j]);
            let q: u32 = e[j];
            let r: u32 = ops.plus(q, p);
            proof {
                assert(q == before[j as int]);
                assert(ops.sum(q, p, r));
                assert(ops.column(b2@[j as int], flat@, bt@, n as int, j as int, i + 1, r));
            }
            e.set(j, r);
            j += 1;
        }
        i += 1;
    }
    e
}

impl IrEmbedder {
    /// A bfloat16 tensor of `n` elements that the steps were checked for.
    fn tensor16(&self, name: &str, Ghost(n): Ghost<nat>) -> (r: Vec<u16>)
        requires
            self@.store.expect(name@, DType::Bf16, n) is Ok,
        ensures
            r@ == tensor16(self@.store, name@),
            r@.len() == n,
    {
        let r = self.store.bf16(name);
        proof {
            assert(r is Ok);
        }
        match r {
            Ok(v) => v,
            Err(_) => Vec::new(),
        }
    }

    fn step_input(
        &self,
        run: &mut Run,
        buf: u32,
        c: usize,
        h: usize,
        w: usize,
        tensor: &String,
        input: Option<&Vec<u16>>,
    ) -> (r: Result<(), Error>)
        requires
            c % 8 == 0,
            c * h * w <= usize::MAX,
            self@.store.expect(tensor@, DType::Bf16, (c * h * w) as nat) is Ok,
        ensures
            match r {
                Ok(_) => defines(old(run)@, final(run)@, buf) && final(run)@.bufs[buf].wf() && shape_of(
                    final(run)@.bufs[buf],
                ) == (c, h, w) && final(run)@.bufs[buf].v@ == (match input {
                    Some(t) => t@,
                    None => tensor16(self@.store, tensor@),
                }),
                Err(e) => input matches Some(t) && t@.len() != c * h * w && input_error(
                    e,
                    "tiled input length "@ + decimal(t@.len()) + " != "@ + decimal((c * h * w) as nat),
                ),
            },
    {
        let ghost (ci, hi, wi) = (c as int, h as int, w as int);
        proof {
            tile_len_is(ci, hi, wi);
        }
        let v: Vec<u16> = match input {
            Some(t) => {
                let want: usize = match mul3(c, h, w) {
                    Some(n) => n,
                    None => 0,
                };
                if t.len() != want {
                    let a = decimal_of(t.len() as u128);
                    let b = decimal_of(want as u128);
                    return Err(
                        Error::Input(cat3("tiled input length ", a.as_str(), " != ").concat(b.as_str())),
                    );
                }
                copy16(t)
            },
            None => self.tensor16(tensor.as_str(), Ghost((c * h * w) as nat)),
        };
        let b = Buf { v, c, h, w };
        run.bufs.insert(buf, b);
        Ok(())
    }

    fn step_affine<A: Fn(u32, u32) -> u32, M: Fn(u32, u32) -> u32>(
        &self,
        run: &mut Run,
        from: u32,
        out: u32,
        scale: &String,
        shift: &String,
        ops: &Ops<A, M>,
    )
        requires
            ops.total(),
            old(run)@.bufs.contains_key(from),
            old(run)@.bufs[from].wf(),
            old(run)@.bufs[from].whole(),
            self@.store.expect(scale@, DType::Bf16, old(run)@.bufs[from].c as nat) is Ok,
            self@.store.expect(shift@, DType::Bf16, old(run)@.bufs[from].c as nat) is Ok,
        ensures
            defines(old(run)@, final(run)@, out),
            affine_is(
                ops,
                old(run)@.bufs[from],
                tensor16(self@.store, scale@),
                tensor16(self@.store, shift@),
                final(run)@.bufs[out],
            ),
    {
        let ghost n = run@.bufs[from].c as nat;
        let sc = self.tensor16(scale.as_str(), Ghost(n));
        let sh = self.tensor16(shift.as_str(), Ghost(n));
        let src = run.bufs.get(&from).unwrap();
        let r = affine_tiled(src, sc.as_slice(), sh.as_slice(), ops);
        run.bufs.insert(out, r);
    }

    fn step_prelu<A: Fn(u32, u32) -> u32, M: Fn(u32, u32) -> u32>(
        &self,
        run: &mut Run,
        buf: u32,
        alpha: &String,
        bias: &String,
        ops: &Ops<A, M>,
    )
        requires
            ops.total(),
            old(run)@.bufs.contains_key(buf),
            old(run)@.bufs[buf].wf(),
            old(run)@.bufs[buf].whole(),
            self@.store.expect(alpha@, DType::Bf16, old(run)@.bufs[buf].c as nat) is Ok,
            self@.store.expect(bias@, DType::Bf16, old(run)@.bufs[buf].c as nat) is Ok,
        ensures
            defines(old(run)@, final(run)@, buf),
            prelu_is(
                ops,
                old(run)@.bufs[buf],
                tensor16(self@.store, alpha@),
                tensor16(self@.store, bias@),
                final(run)@.bufs[buf],
            ),
    {
        let ghost n = run@.bufs[buf].c as nat;
        let al = self.tensor16(alpha.as_str(), Ghost(n));
        let bi = self.tensor16(bias.as_str(), Ghost(n));
        let mut r = run.bufs.remove(&buf).unwrap();
        prelu_bias_tiled(&mut r, al.as_slice(), bi.as_slice(), ops);
        run.bufs.insert(buf, r);
        proof {
            assert(run@.bufs =~= old(run)@.bufs.insert(buf, r));
        }
    }

    fn step_bias<A: Fn(u32, u32) -> u32, M: Fn(u32, u32) -> u32>(
        &self,
        run: &mut Run,
        buf: u32,
        bias: &String,
        ops: &Ops<A, M>,
    )
        requires
            ops.total(),
            old(run)@.bufs.contains_key(buf),
            old(run)@.bufs[buf].wf(),
            old(run)@.bufs[buf].whole(),
            self@.store.expect(bias@, DType::Bf16, old(run)@.bufs[buf].c as nat) is Ok,
        ensures
            defines(old(run)@, final(run)@, buf),
            bias_is(ops, old(run)@.bufs[buf], tensor16(self@.store, bias@), final(run)@.bufs[buf]),
    {
        let ghost n = run@.bufs[buf].c as nat;
        let bi = self.tensor16(bias.as_str(), Ghost(n));
        let mut r = run.bufs.remove(&buf).unwrap();
        bias_tiled(&mut r, bi.as_slice(), ops);
        run.bufs.insert(buf, r);
        proof {
            assert(run@.bufs =~= old(run)@.bufs.insert(buf, r));
        }
    }

    fn step_head<A: Fn(u32, u32) -> u32, M: Fn(u32, u32) -> u32>(
        &self,
        run: &mut Run,
        from: u32,
        k: usize,
        n: usize,
        bt: &String,
        b2: &String,
        ops: &Ops<A, M>,
    )
        requires
            ops.total(),
            old(run)@.bufs.contains_key(from),
            old(run)@.bufs[from].wf(),
            old(run)@.bufs[from].whole(),
            old(run)@.bufs[from].c * old(run)@.bufs[from].h * old(run)@.bufs[from].w == k,
            self@.store.expect(bt@, DType::Bf16, (k * n) as nat) is Ok,
            self@.store.expect(b2@, DType::F32, n as nat) is Ok,
        ensures
            final(run)@.bufs == old(run)@.bufs,
            final(run)@.accs == old(run)@.accs,
            final(run)@.embed.len() == n,
            forall|j: int| #![trigger final(run)@.embed[j]]
                0 <= j < n ==> ops.column(
                    tensor32(self@.store, b2@)[j],
                    planar(&old(run)@.bufs[from]),
                    widened(tensor16(self@.store, bt@)),
                    n as int,
                    j,
                    k as int,
                    final(run)@.embed[j],
                ),
    {
        let src = run.bufs.get(&from).unwrap();
        let flat = tiled_to_nchw(src);
        let w = self.tensor16(bt.as_str(), Ghost((k * n) as nat));
        let b2v = self.store.f32_bits(b2.as_str());
        proof {
            assert(b2v is Ok);
        }
        let b2v = match b2v {
            Ok(v) => v,
            Err(_) => Vec::new(),
        };
        run.embed = head(&flat, &widen(w.as_slice()), &b2v, k, n, ops);
    }

    /// Runs a step that needs no device.
    fn host_step<A: Fn(u32, u32) -> u32, M: Fn(u32, u32) -> u32>(
        &self,
        run: &mut Run,
        s: &Step,
        input: Option<&Vec<u16>>,
        ops: &Ops<A, M>,
        Ghost(b): Ghost<Buffers>,
    ) -> (r: Result<(), Error>)
        requires
            !(s is Conv),
            ops.total(),
            b.wf(),
            b.allow(s@, self@.store),
            old(run)@.holds(b),
        ensures
            match r {
                Ok(_) => host_to(
                    ops,
                    self@.store,
                    match input {
                        Some(t) => Some(t@),
                        None => None,
                    },
                    s@,
                    old(run)@,
                    final(run)@,
                ) && final(run)@.holds(b.after(s@)),
                Err(e) => match s@ {
                    StepView::Input { c, h, w, .. } => input matches Some(t) && t@.len() != c * h * w && input_error(
                        e,
                        "tiled input length "@ + decimal(t@.len()) + " != "@ + decimal((c * h * w) as nat),
                    ),
                    _ => false,
                },
            },
    {
        match s {
            Step::Input { buf, c, h, w, tensor } => self.step_input(run, *buf, *c, *h, *w, tensor, input),
            Step::Conv(_) => Ok(()),
            Step::Affine { input: from, out, scale, shift } => {
                self.step_affine(run, *from, *out, scale, shift, ops);
                Ok(())
            },
            Step::PreluBias { buf, alpha, bias } => {
                self.step_prelu(run, *buf, alpha, bias, ops);
                Ok(())
            },
            Step::Bias { buf, bias } => {
                self.step_bias(run, *buf, bias, ops);
                Ok(())
            },
            Step::Subsample { input: from, out, stride } => {
                step_subsample(run, *from, *out, *stride);
                Ok(())
            },
            Step::Add { a, b: other, out } => {
                step_add(run, *a, *other, *out, ops);
                Ok(())
            },
            Step::Head { input: from, k, n, bt, b2 } => {
                self.step_head(run, *from, *k, *n, bt, b2, ops);
                Ok(())
            },
        }
    }
}

fn step_subsample(run: &mut Run, from: u32, out: u32, stride: usize)
    requires
        stride > 0,
        old(run)@.bufs.contains_key(from),
        old(run)@.bufs[from].wf(),
    ensures
        defines(old(run)@, final(run)@, out),
        subsample_is(old(run)@.bufs[from], stride, final(run)@.bufs[out]),
{
    let src = run.bufs.get(&from).unwrap();
    let r = subsample_tiled(src, stride);
    run.bufs.insert(out, r);
}

fn step_add<A: Fn(u32, u32) -> u32, M: Fn(u32, u32) -> u32>(
    run: &mut Run,
    a: u32,
    b: u32,
    out: u32,
    ops: &Ops<A, M>,
)
    requires
        ops.total(),
        old(run)@.bufs.contains_key(a),
        old(run)@.bufs.contains_key(b),
        old(run)@.bufs[a].wf(),
        old(run)@.bufs[b].wf(),
        old(run)@.bufs[a].same_shape(&old(run)@.bufs[b]),
    ensures
        defines(old(run)@, final(run)@, out),
        sum_is(ops, old(run)@.bufs[a], old(run)@.bufs[b], final(run)@.bufs[out]),
{
    let l = run.bufs.get(&a).unwrap();
    let q = run.bufs.get(&b).unwrap();
    let r = add_tiled(l, q, ops);
    run.bufs.insert(out, r);
}

pub(crate) fn copy16(v: &Vec<u16>) -> (r: Vec<u16>)
    ensures
        r@ == v@,
{
    let mut r: Vec<u16> = Vec::new();
    let mut i: usize = 0;
    while i < v.len()
        invariant
            i <= v@.len(),
            r@ == v@.take(i as int),
        decreases v@.len() - i,
    {
        r.push(v[i]);
        i += 1;
        proof {
            assert(r@ =~= v@.take(i as int));
        }
    }
    proof {
        assert(v@.take(i as int) =~= v@);
    }
    r
}

/// Adds `part` to `acc`, element by element as far as both go.
pub(crate) fn accumulate<A: Fn(u32, u32) -> u32, M: Fn(u32, u32) -> u32>(
    acc: Vec<u32>,
    part: &Vec<u16>,
    first: bool,
    ops: &Ops<A, M>,
) -> (r: Vec<u32>)
    requires
        ops.total(),
    ensures
        ops.accumulated(
            if first {
                Seq::new(acc@.len(), |i: int| 0u32)
            } else {
                acc@
            },
            part@,
            r@,
        ),
{
    let ghost base = if first {
        Seq::new(acc@.len(), |i: int| 0u32)
    } else {
        acc@
    };
    let mut r: Vec<u32> = Vec::new();
    let mut i: usize = 0;
    while i < acc.len()
        invariant
            ops.total(),
            i <= acc@.len(),
            r@.len() == i,
            base == (if first {
                Seq::new(acc@.len(), |i: int| 0u32)
            } else {
                acc@
            }),
            forall|k: int| #![trigger r@[k]]
                0 <= k < i ==> if k < part@.len() {
                    ops.sum(base[k], wide(part@[k]), r@[k])
                } else {
                    r@[k] == base[k]
                },
        decreases acc@.len() - i,
    {
        let a: u32 = if first {
            0
        } else {
            acc[i]
        };
        let v: u32 = if i < part.len() {
            ops.plus(a, bf16_to_f32(part[i]))
        } else {
            a
        };
        r.push(v);
        i += 1;
    }
    r
}

/// Adds the device's answer to a dispatch into its accumulator, and after
/// the last dispatch rounds and crops the sums into the output buffer.
fn absorb<A: Fn(u32, u32) -> u32, M: Fn(u32, u32) -> u32>(
    run: &mut Run,
    cv: Sink,
    part: &Vec<u16>,
    ops: &Ops<A, M>,
)
    requires
        ops.total(),
        cv.oc * cv.oh * cv.owp <= usize::MAX,
        cv.last ==> cv.ow <= cv.owp && tile_len(cv.oh as int, cv.oc as int / 8, cv.owp as int)
            <= acc_before(old(run)@, cv).len(),
    ensures
        conv_to(ops, cv, part@, old(run)@, final(run)@),
{
    let ghost x = run@;
    let have = match run.accs.remove(&cv.out) {
        Some(a) => a,
        None => {
            let n: usize = match mul3(cv.oc, cv.oh, cv.owp) {
                Some(n) => n,
                None => 0,
            };
            zeros(n)
        },
    };
    proof {
        if x.accs.contains_key(cv.out) {
            assert(have@ == x.accs[cv.out]);
        } else {
            assert(have@ == Seq::new((cv.oc * cv.oh * cv.owp) as nat, |i: int| 0u32));
        }
    }
    let acc = accumulate(have, part, cv.first, ops);
    proof {
        assert(ops.accumulated(acc_before(x, cv), part@, acc@));
    }
    if cv.last {
        proof {
            let (c, h, w, wp) = (cv.oc as int, cv.oh as int, cv.ow as int, cv.owp as int);
            assert(c * h * w <= c * h * wp) by (nonlinear_arith)
                requires
                    0 <= c,
                    0 <= h,
                    w <= wp,
            ;
        }
        let out = crop(acc.as_slice(), cv.oc, cv.oh, cv.owp, cv.ow);
        run.bufs.insert(cv.out, out);
    }
    run.accs.insert(cv.out, acc);
    proof {
        assert(run@.accs =~= x.accs.insert(cv.out, acc@));
    }
}

impl IrEmbedder {
    /// Runs a convolution step: slices and pads its input, has the device
    /// run it, and absorbs the answer.
    fn conv_step<
        A: Fn(u32, u32) -> u32,
        M: Fn(u32, u32) -> u32,
        D: Fn(&Conv, &Vec<u16>, &Vec<u16>, usize) -> Result<Vec<u16>, Error>,
    >(&self, run: &mut Run, cv: &Conv, ops: &Ops<A, M>, dev: &D, Ghost(b): Ghost<Buffers>) -> (r: Result<(), Error>)
        requires
            ops.total(),
            b.wf(),
            b.allow(StepView::Conv(cv@), self@.store),
            old(run)@.holds(b),
            forall|c: &Conv, i: &Vec<u16>, w: &Vec<u16>, n: usize| call_requires(dev, (c, i, w, n)),
        ensures
            match r {
                Ok(_) => step_to(ops, dev, self@.store, None, Step::Conv(*cv), old(run)@, final(run)@)
                    && final(run)@.holds(b.after(StepView::Conv(cv@))),
                Err(e) => step_fails(dev, self@.store, None, Step::Conv(*cv), old(run)@, e),
            },
    {
        let ghost x = run@;
        let src = run.bufs.get(&cv.input).unwrap();
        proof {
            let (g, h, wp) = (cv.icg as int / 8, src.h as int, cv.wp as int);
            tile_len_is(cv.icg as int, h, wp);
        }
        let inp = slice_groups_wpad(src, cv.c0, cv.icg / 8, cv.wp);
        let wt = match self.store.bf16(cv.wt.as_str()) {
            Ok(v) => v,
            Err(_) => Vec::new(),
        };
        let n: usize = match mul3(cv.oc, cv.oh, cv.owp) {
            Some(n) => n,
            None => 0,
        };
        proof {
            assert(dispatch_args(self@.store, x, cv@, inp@, wt@));
        }
        match dev(cv, &inp, &wt, n) {
            Ok(part) => {
                let sink = Sink {
                    out: cv.out,
                    oc: cv.oc,
                    oh: cv.oh,
                    ow: cv.ow,
                    owp: cv.owp,
                    first: cv.first,
                    last: cv.last,
                };
                proof {
                    tile_len_is(cv.oc as int, cv.oh as int, cv.owp as int);
                }
                absorb(run, sink, &part, ops);
                proof {
                    assert(dispatch_to(ops, dev, self@.store, *cv, n, x, run@));
                }
                Ok(())
            },
            Err(e) => {
                proof {
                    assert(dispatch_fails(dev, self@.store, *cv, n, x, e));
                }
                Err(e)
            },
        }
    }
}

/// A finished forward: its trace over all steps ends with the embedding
/// `e`.
pub open spec fn forward_gives<
    A: Fn(u32, u32) -> u32,
    M: Fn(u32, u32) -> u32,
    D: Fn(&Conv, &Vec<u16>, &Vec<u16>, usize) -> Result<Vec<u16>, Error>,
>(ops: &Ops<A, M>, dev: &D, st: StoreView, input: Option<Seq<u16>>, steps: Seq<Step>, e: Seq<u32>) -> bool {
    exists|tr: Seq<RunView>| #[trigger]
        trace(ops, dev, st, input, steps, tr, steps.len() as int) && e == tr.last().embed
}

/// A forward that stopped: after some steps the next one failed with `e`.
pub open spec fn forward_fails<
    A: Fn(u32, u32) -> u32,
    M: Fn(u32, u32) -> u32,
    D: Fn(&Conv, &Vec<u16>, &Vec<u16>, usize) -> Result<Vec<u16>, Error>,
>(ops: &Ops<A, M>, dev: &D, st: StoreView, input: Option<Seq<u16>>, steps: Seq<Step>, e: Error) -> bool {
    exists|tr: Seq<RunView>, n: int| #[trigger]
        trace(ops, dev, st, input, steps, tr, n) && 0 <= n < steps.len() && step_fails(
            dev,
            st,
            input,
            steps[n],
            tr.last(),
            e,
        )
}

impl IrEmbedder {
    /// One forward pass over the steps. `dev` runs a dispatch: the step,
    /// its sliced input, its weights and the length of the answer. `input`
    /// overrides the input step's recorded tensor with a caller-built tiled
    /// buffer. Every buffer a step reads exists (checked at load), so only
    /// the device or the length of `input` can make a forward fail.
    pub fn forward<
        A: Fn(u32, u32) -> u32,
        M: Fn(u32, u32) -> u32,
        D: Fn(&Conv, &Vec<u16>, &Vec<u16>, usize) -> Result<Vec<u16>, Error>,
    >(&self, input: Option<&Vec<u16>>, ops: &Ops<A, M>, dev: &D) -> (r: Result<Vec<u32>, Error>)
        requires
            ops.total(),
            forall|c: &Conv, i: &Vec<u16>, w: &Vec<u16>, n: usize| call_requires(dev, (c, i, w, n)),
        ensures
            step_views(self.plan()) == self@.steps,
            ({
                let given = match input {
                    Some(t) => Some(t@),
                    None => None,
                };
                match r {
                    Ok(e) => forward_gives(ops, dev, self@.store, given, self.plan(), e@),
                    Err(e) => forward_fails(ops, dev, self@.store, given, self.plan(), e),
                }
            }),
    {
        proof {
            use_type_invariant(self);
        }
        let ghost given = match input {
            Some(t) => Some(t@),
            None => None,
        };
        let ghost all = step_views(self.steps@);
        let ghost st = self@.store;
        let mut run = Run { bufs: HashMap::new(), accs: HashMap::new(), embed: Vec::new() };
        let ghost mut tr: Seq<RunView> = seq![run@];
        let mut i: usize = 0;
        proof {
            assert(run@.bufs =~= Map::empty());
            assert(run@.accs =~= Map::empty());
            assert(run@.embed =~= seq![]);
            assert(all.take(0) =~= seq![]);
        }
        while i < self.steps.len()
            invariant
                i <= self.steps@.len(),
                all == step_views(self.steps@),
                st == self@.store,
                runnable(all, st),
                ops.total(),
                forall|c: &Conv, i: &Vec<u16>, w: &Vec<u16>, n: usize| call_requires(dev, (c, i, w, n)),
                given == (match input {
                    Some(t) => Some(t@),
                    None => None,
                }),
                run@.holds(buffers_after(all.take(i as int))),
                trace(ops, dev, st, given, self.steps@, tr, i as int),
                tr.last() == run@,
            decreases self.steps@.len() - i,
        {
            let ghost b = buffers_after(all.take(i as int));
            let ghost x = run@;
            let s = &self.steps[i];
            proof {
                runnable_buffers_wf(all, st, i as int);
                assert(all[i as int] == s@);
                assert(b.allow(s@, st));
                assert(all.take(i + 1).drop_last() =~= all.take(i as int));
                assert(all.take(i + 1).last() == s@);
            }
            let r = match s {
                Step::Conv(cv) => self.conv_step(&mut run, cv, ops, dev, Ghost(b)),
                _ => self.host_step(&mut run, s, input, ops, Ghost(b)),
            };
            match r {
                Ok(_) => {
                    proof {
                        assert(step_to(ops, dev, st, given, *s, x, run@));
                        let next = tr.push(run@);
                        assert forall|k: int| #![trigger next[k + 1]] 0 <= k < i + 1 implies step_to(
                            ops,
                            dev,
                            st,
                            given,
                            self.steps@[k],
                            next[k],
                            next[k + 1],
                        ) by {
                            if k < i {
                                assert(next[k + 1] == tr[k + 1]);
                            }
                        }
                        tr = next;
                    }
                },
                Err(e) => {
                    proof {
                        assert(step_fails(dev, st, given, *s, x, e));
                        assert(forward_fails(ops, dev, st, given, self.steps@, e));
                    }
                    return Err(e);
                },
            }
            i += 1;
        }
        proof {
            assert(forward_gives(ops, dev, st, given, self.steps@, run@.embed));
        }
        Ok(run.embed)
    }

    /// Embeds a caller's image: channel-major single precision (as bits),
    /// one to all of the stem's channels.
    pub fn embed<
        A: Fn(u32, u32) -> u32,
        M: Fn(u32, u32) -> u32,
        D: Fn(&Conv, &Vec<u16>, &Vec<u16>, usize) -> Result<Vec<u16>, Error>,
    >(&self, chw: &[u32], ops: &Ops<A, M>, dev: &D) -> (r: Result<Vec<u32>, Error>)
        requires
            ops.total(),
            forall|c: &Conv, i: &Vec<u16>, w: &Vec<u16>, n: usize| call_requires(dev, (c, i, w, n)),
        ensures
            match stem_input(self@.input, chw@) {
                Err(m) => r matches Err(e) && input_error(e, m),
                Ok(t) => match r {
                    Ok(e) => forward_gives(ops, dev, self@.store, Some(t), self.plan(), e@),
                    Err(e) => forward_fails(ops, dev, self@.store, Some(t), self.plan(), e),
                },
            },
    {
        let t = self.tile_input(chw)?;
        self.forward(Some(&t), ops, dev)
    }

    /// Embeds the bundle's own recorded input.
    pub fn embed_recorded<
        A: Fn(u32, u32) -> u32,
        M: Fn(u32, u32) -> u32,
        D: Fn(&Conv, &Vec<u16>, &Vec<u16>, usize) -> Result<Vec<u16>, Error>,
    >(&self, ops: &Ops<A, M>, dev: &D) -> (r: Result<Vec<u32>, Error>)
        requires
            ops.total(),
            forall|c: &Conv, i: &Vec<u16>, w: &Vec<u16>, n: usize| call_requires(dev, (c, i, w, n)),
        ensures
            match r {
                Ok(e) => forward_gives(ops, dev, self@.store, None, self.plan(), e@),
                Err(e) => forward_fails(ops, dev, self@.store, None, self.plan(), e),
            },
    {
        self.forward(None, ops, dev)
    }
}

} // verus!
