//! The GAIC bundle: the layer table of the cropping network.
//!
//! `Bundle::load` reads every record into the typed specs below and checks
//! them against each other and against the tensors, so a mismatched bundle
//! is an error naming the manifest line rather than garbage later.

use crate::arith::{mul2, mul3, plus2_mul};
use crate::manifest::{self, join, joined, manifest_of, Manifest, ManifestView, Record, RecordView};
use crate::store::{elems32, store_of, DType, Store, StoreView};
use crate::text::{
    cat2, cat3, cat5, decimal, decimal_of, denotes_real, has_prefix, is_real, quoted, quoted_text, same, starts_with,
    FromText,
};
use vstd::prelude::*;

verus! {

/// The bundle format version this runtime reads.
pub const VERSION: u32 = 1;

#[derive(Debug)]
pub enum Error {
    /// The bundle is missing, malformed, or does not match this runtime.
    Bundle(String),
    /// The device, a kernel load, a buffer or a run.
    Npu(String),
    /// An input the model cannot take (size, box count).
    Input(String),
}

impl Error {
    /// The text shown for an error.
    pub open spec fn shown(&self) -> Seq<char> {
        match self {
            Error::Bundle(m) => "GAIC bundle: "@ + m@,
            Error::Npu(m) => m@,
            Error::Input(m) => "GAIC input: "@ + m@,
        }
    }

    pub fn message(&self) -> (r: String)
        ensures
            r@ == self.shown(),
    {
        match self {
            Error::Bundle(m) => cat2("GAIC bundle: ", m.as_str()),
            Error::Npu(m) => m.clone(),
            Error::Input(m) => cat2("GAIC input: ", m.as_str()),
        }
    }
}

/// `e` is the bundle error with the message `m`.
pub open spec fn says(e: Error, m: Seq<char>) -> bool {
    e matches Error::Bundle(s) && s@ == m
}

fn lift(e: manifest::Error) -> (r: Error)
    ensures
        says(r, e.shown()),
{
    Error::Bundle(e.message())
}

/// One compiled GEMM: `C[M, N] = A[M, K] B[K, N]`, A read from `a_elems`
/// bf16 (rows may overlap), B pre-packed (`b_bytes`).
#[derive(Debug, Clone)]
pub struct KernelSpec {
    pub key: String,
    pub xclbin: String,
    pub insts: String,
    pub name: String,
    pub m: usize,
    pub k: usize,
    pub n: usize,
    pub a_elems: usize,
    pub b_bytes: usize,
    pub c_elems: usize,
}

pub struct KernelView {
    pub key: Seq<char>,
    pub xclbin: Seq<char>,
    pub insts: Seq<char>,
    pub name: Seq<char>,
    pub m: usize,
    pub k: usize,
    pub n: usize,
    pub a_elems: usize,
    pub b_bytes: usize,
    pub c_elems: usize,
}

impl View for KernelSpec {
    type V = KernelView;

    open spec fn view(&self) -> KernelView {
        KernelView {
            key: self.key@,
            xclbin: self.xclbin@,
            insts: self.insts@,
            name: self.name@,
            m: self.m,
            k: self.k,
            n: self.n,
            a_elems: self.a_elems,
            b_bytes: self.b_bytes,
            c_elems: self.c_elems,
        }
    }
}

/// One 3x3 conv (pad 1, stride 1) as a GEMM over `P` output pixels a row.
#[derive(Debug, Clone)]
pub struct ConvSpec {
    pub name: String,
    pub kernel: String,
    pub c: usize,
    pub oc: usize,
    pub pool_before: bool,
    pub m_chunk: usize,
    pub p: usize,
    /// The stem: A is a materialised im2col, P windows of 9C a row.
    pub window: bool,
    /// Y's row width (view) / one pixel's `[dy][c]` run (window, = 3C).
    pub d: usize,
    /// Tensor: the packed B.
    pub b: String,
    /// Tensor: `[OC]` floats.
    pub bias: String,
}

pub struct ConvView {
    pub name: Seq<char>,
    pub kernel: Seq<char>,
    pub c: usize,
    pub oc: usize,
    pub pool_before: bool,
    pub m_chunk: usize,
    pub p: usize,
    pub window: bool,
    pub d: usize,
    pub b: Seq<char>,
    pub bias: Seq<char>,
}

impl View for ConvSpec {
    type V = ConvView;

    open spec fn view(&self) -> ConvView {
        ConvView {
            name: self.name@,
            kernel: self.kernel@,
            c: self.c,
            oc: self.oc,
            pool_before: self.pool_before,
            m_chunk: self.m_chunk,
            p: self.p,
            window: self.window,
            d: self.d,
            b: self.b@,
            bias: self.bias@,
        }
    }
}

#[derive(Debug, Clone)]
pub struct Fc1Spec {
    pub kernel: String,
    /// Tensor: the packed B.
    pub b: String,
    /// Tensor: `[n]` floats.
    pub bias: String,
    pub k: usize,
    pub k_pad: usize,
    pub n: usize,
    pub m: usize,
}

pub struct Fc1View {
    pub kernel: Seq<char>,
    pub b: Seq<char>,
    pub bias: Seq<char>,
    pub k: usize,
    pub k_pad: usize,
    pub n: usize,
    pub m: usize,
}

impl View for Fc1Spec {
    type V = Fc1View;

    open spec fn view(&self) -> Fc1View {
        Fc1View {
            kernel: self.kernel@,
            b: self.b@,
            bias: self.bias@,
            k: self.k,
            k_pad: self.k_pad,
            n: self.n,
            m: self.m,
        }
    }
}

/// A dense layer kept on the host: two tensors and its sizes.
#[derive(Debug, Clone)]
pub struct DenseSpec {
    /// Tensor: `[outputs, inputs]` floats.
    pub w: String,
    /// Tensor: `[outputs]` floats.
    pub b: String,
    pub inputs: usize,
    pub outputs: usize,
}

pub struct DenseView {
    pub w: Seq<char>,
    pub b: Seq<char>,
    pub inputs: usize,
    pub outputs: usize,
}

impl View for DenseSpec {
    type V = DenseView;

    open spec fn view(&self) -> DenseView {
        DenseView { w: self.w@, b: self.b@, inputs: self.inputs, outputs: self.outputs }
    }
}

/// The self-check image; its data are the `ref.*` tensors.
#[derive(Debug, Clone)]
pub struct RefSpec {
    pub image: String,
    pub w: usize,
    pub h: usize,
    pub n_anchors: usize,
    pub src_w: usize,
    pub src_h: usize,
}

pub struct RefView {
    pub image: Seq<char>,
    pub w: usize,
    pub h: usize,
    pub n_anchors: usize,
    pub src_w: usize,
    pub src_h: usize,
}

impl View for RefSpec {
    type V = RefView;

    open spec fn view(&self) -> RefView {
        RefView {
            image: self.image@,
            w: self.w,
            h: self.h,
            n_anchors: self.n_anchors,
            src_w: self.src_w,
            src_h: self.src_h,
        }
    }
}

// ----------------------------------------------------------------------------
// Reading the records
// ----------------------------------------------------------------------------

/// The kernel a `kernel` record defines.
pub open spec fn kernel_of(m: ManifestView, seen: Seq<KernelView>, r: RecordView) -> Result<KernelView, Seq<char>> {
    match r.field(0) {
        Err(e) => Err(e),
        Ok(key) => if exists|i: int| 0 <= i < seen.len() && (#[trigger] seen[i]).key == key {
            Err(r.at("kernel "@ + key + " defined twice"@))
        } else {
            match r.str("ctx"@) {
                Err(e) => Err(e),
                Ok(ctx) => match (
                    m.xclbin(ctx),
                    r.str("insts"@),
                    r.get::<usize>("M"@),
                    r.get::<usize>("K"@),
                    r.get::<usize>("N"@),
                    r.get::<usize>("a_elems"@),
                    r.get::<usize>("b_bytes"@),
                    r.get::<usize>("c_elems"@),
                ) {
                    (Err(e), _, _, _, _, _, _, _) => Err(r.at(e)),
                    (_, Err(e), _, _, _, _, _, _) => Err(e),
                    (_, _, Err(e), _, _, _, _, _) => Err(e),
                    (_, _, _, Err(e), _, _, _, _) => Err(e),
                    (_, _, _, _, Err(e), _, _, _) => Err(e),
                    (_, _, _, _, _, Err(e), _, _) => Err(e),
                    (_, _, _, _, _, _, Err(e), _) => Err(e),
                    (_, _, _, _, _, _, _, Err(e)) => Err(e),
                    (Ok(x), Ok(insts), Ok(mm), Ok(k), Ok(n), Ok(a_elems), Ok(b_bytes), Ok(c_elems)) => Ok(
                        KernelView {
                            key,
                            xclbin: x.path,
                            insts: joined(m.dir, insts),
                            name: x.kernel,
                            m: mm,
                            k,
                            n,
                            a_elems,
                            b_bytes,
                            c_elems,
                        },
                    ),
                },
            }
        },
    }
}

/// The layer a `conv` record defines.
pub open spec fn conv_of(seen: Seq<ConvView>, r: RecordView) -> Result<ConvView, Seq<char>> {
    match r.field(0) {
        Err(e) => Err(e),
        Ok(name) => if exists|i: int| 0 <= i < seen.len() && (#[trigger] seen[i]).name == name {
            Err(r.at("conv "@ + name + " defined twice"@))
        } else {
            match (
                r.str("kernel"@),
                r.get::<usize>("C"@),
                r.get::<usize>("OC"@),
                r.flag("pool_before"@),
                r.get::<usize>("m_chunk"@),
                r.get::<usize>("P"@),
                r.flag("window"@),
                r.get::<usize>("D"@),
                r.str("b"@),
                r.str("bias"@),
            ) {
                (Err(e), _, _, _, _, _, _, _, _, _) => Err(e),
                (_, Err(e), _, _, _, _, _, _, _, _) => Err(e),
                (_, _, Err(e), _, _, _, _, _, _, _) => Err(e),
                (_, _, _, Err(e), _, _, _, _, _, _) => Err(e),
                (_, _, _, _, Err(e), _, _, _, _, _) => Err(e),
                (_, _, _, _, _, Err(e), _, _, _, _) => Err(e),
                (_, _, _, _, _, _, Err(e), _, _, _) => Err(e),
                (_, _, _, _, _, _, _, Err(e), _, _) => Err(e),
                (_, _, _, _, _, _, _, _, Err(e), _) => Err(e),
                (_, _, _, _, _, _, _, _, _, Err(e)) => Err(e),
                (
                    Ok(kernel),
                    Ok(c),
                    Ok(oc),
                    Ok(pool_before),
                    Ok(m_chunk),
                    Ok(p),
                    Ok(window),
                    Ok(d),
                    Ok(b),
                    Ok(bias),
                ) => Ok(ConvView { name, kernel, c, oc, pool_before, m_chunk, p, window, d, b, bias }),
            }
        },
    }
}

/// The layer a record with fields `w=`, `b=` and the two sizes defines;
/// the size named first is read first.
pub open spec fn dense_of(r: RecordView, outputs_first: bool) -> Result<DenseView, Seq<char>> {
    let a = if outputs_first {
        r.get::<usize>("out"@)
    } else {
        r.get::<usize>("in"@)
    };
    let z = if outputs_first {
        r.get::<usize>("in"@)
    } else {
        r.get::<usize>("out"@)
    };
    match (r.str("w"@), r.str("b"@), a, z) {
        (Err(e), _, _, _) => Err(e),
        (_, Err(e), _, _) => Err(e),
        (_, _, Err(e), _) => Err(e),
        (_, _, _, Err(e)) => Err(e),
        (Ok(w), Ok(b), Ok(x), Ok(y)) => if outputs_first {
            Ok(DenseView { w, b, inputs: y, outputs: x })
        } else {
            Ok(DenseView { w, b, inputs: x, outputs: y })
        },
    }
}

/// The last layer, which has one output.
pub open spec fn fc3_of(r: RecordView) -> Result<DenseView, Seq<char>> {
    match (r.str("w"@), r.str("b"@), r.get::<usize>("in"@)) {
        (Err(e), _, _) => Err(e),
        (_, Err(e), _) => Err(e),
        (_, _, Err(e)) => Err(e),
        (Ok(w), Ok(b), Ok(inputs)) => Ok(DenseView { w, b, inputs, outputs: 1 }),
    }
}

pub open spec fn fc1_of(r: RecordView) -> Result<Fc1View, Seq<char>> {
    match (
        r.str("kernel"@),
        r.str("b"@),
        r.str("bias"@),
        r.get::<usize>("k"@),
        r.get::<usize>("k_pad"@),
        r.get::<usize>("n"@),
        r.get::<usize>("m"@),
    ) {
        (Err(e), _, _, _, _, _, _) => Err(e),
        (_, Err(e), _, _, _, _, _) => Err(e),
        (_, _, Err(e), _, _, _, _) => Err(e),
        (_, _, _, Err(e), _, _, _) => Err(e),
        (_, _, _, _, Err(e), _, _) => Err(e),
        (_, _, _, _, _, Err(e), _) => Err(e),
        (_, _, _, _, _, _, Err(e)) => Err(e),
        (Ok(kernel), Ok(b), Ok(bias), Ok(k), Ok(k_pad), Ok(n), Ok(m)) => Ok(
            Fc1View { kernel, b, bias, k, k_pad, n, m },
        ),
    }
}

pub open spec fn ref_of(r: RecordView) -> Result<RefView, Seq<char>> {
    match (
        r.str("image"@),
        r.get::<usize>("w"@),
        r.get::<usize>("h"@),
        r.get::<usize>("anchors"@),
        r.get::<usize>("src_w"@),
        r.get::<usize>("src_h"@),
    ) {
        (Err(e), _, _, _, _, _) => Err(e),
        (_, Err(e), _, _, _, _) => Err(e),
        (_, _, Err(e), _, _, _) => Err(e),
        (_, _, _, Err(e), _, _) => Err(e),
        (_, _, _, _, Err(e), _) => Err(e),
        (_, _, _, _, _, Err(e)) => Err(e),
        (Ok(image), Ok(w), Ok(h), Ok(n_anchors), Ok(src_w), Ok(src_h)) => Ok(
            RefView { image, w, h, n_anchors, src_w, src_h },
        ),
    }
}

/// A record that may stand once: its value, unless there was one.
pub open spec fn once_of<T>(slot: Option<T>, r: RecordView, v: Result<T, Seq<char>>) -> Result<Option<T>, Seq<char>> {
    match v {
        Err(e) => Err(e),
        Ok(x) => if slot is Some {
            Err(r.at("second "@ + r.tag + " record"@))
        } else {
            Ok(Some(x))
        },
    }
}

/// What the records read so far define.
pub struct Table {
    pub kernels: Seq<KernelView>,
    pub convs: Seq<ConvView>,
    pub dimred: Option<DenseView>,
    pub fc1: Option<Fc1View>,
    pub fc2: Option<DenseView>,
    pub fc3: Option<DenseView>,
    pub reference: Option<RefView>,
}

impl Table {
    pub open spec fn with(self, m: ManifestView, r: RecordView) -> Result<Table, Seq<char>> {
        if r.tag == "kernel"@ {
            match kernel_of(m, self.kernels, r) {
                Err(e) => Err(e),
                Ok(k) => Ok(Table { kernels: self.kernels.push(k), ..self }),
            }
        } else if r.tag == "conv"@ {
            match conv_of(self.convs, r) {
                Err(e) => Err(e),
                Ok(c) => Ok(Table { convs: self.convs.push(c), ..self }),
            }
        } else if r.tag == "dimred"@ {
            match once_of(self.dimred, r, dense_of(r, true)) {
                Err(e) => Err(e),
                Ok(x) => Ok(Table { dimred: x, ..self }),
            }
        } else if r.tag == "fc1"@ {
            match once_of(self.fc1, r, fc1_of(r)) {
                Err(e) => Err(e),
                Ok(x) => Ok(Table { fc1: x, ..self }),
            }
        } else if r.tag == "fc2"@ {
            match once_of(self.fc2, r, dense_of(r, false)) {
                Err(e) => Err(e),
                Ok(x) => Ok(Table { fc2: x, ..self }),
            }
        } else if r.tag == "fc3"@ {
            match once_of(self.fc3, r, fc3_of(r)) {
                Err(e) => Err(e),
                Ok(x) => Ok(Table { fc3: x, ..self }),
            }
        } else if r.tag == "ref"@ {
            match once_of(self.reference, r, ref_of(r)) {
                Err(e) => Err(e),
                Ok(x) => Ok(Table { reference: x, ..self }),
            }
        } else {
            Err(r.at("unknown record "@ + quoted_text(r.tag)))
        }
    }
}

pub open spec fn table_of(m: ManifestView, rs: Seq<RecordView>) -> Result<Table, Seq<char>>
    decreases rs.len(),
{
    if rs.len() == 0 {
        Ok(
            Table {
                kernels: seq![],
                convs: seq![],
                dimred: None,
                fc1: None,
                fc2: None,
                fc3: None,
                reference: None,
            },
        )
    } else {
        match table_of(m, rs.drop_last()) {
            Err(e) => Err(e),
            Ok(t) => t.with(m, rs.last()),
        }
    }
}

proof fn table_error(m: ManifestView, rs: Seq<RecordView>, n: int)
    requires
        0 <= n <= rs.len(),
        table_of(m, rs.take(n)) is Err,
    ensures
        table_of(m, rs) == table_of(m, rs.take(n)),
    decreases rs.len() - n,
{
    if n < rs.len() {
        assert(rs.take(n + 1).drop_last() =~= rs.take(n));
        table_error(m, rs, n + 1);
    } else {
        assert(rs.take(n) =~= rs);
    }
}

pub open spec fn kernel_views(s: Seq<KernelSpec>) -> Seq<KernelView> {
    s.map_values(|k: KernelSpec| k@)
}

pub open spec fn conv_views(s: Seq<ConvSpec>) -> Seq<ConvView> {
    s.map_values(|c: ConvSpec| c@)
}

pub open spec fn opt_view<T: View>(o: Option<T>) -> Option<T::V> {
    match o {
        Some(x) => Some(x@),
        None => None,
    }
}

/// `r` is the value or the bundle error that `want` prescribes.
pub open spec fn shows<T: View>(r: Result<T, Error>, want: Result<T::V, Seq<char>>) -> bool {
    match (r, want) {
        (Ok(a), Ok(b)) => a@ == b,
        (Err(e), Err(m)) => says(e, m),
        _ => false,
    }
}

fn text_field(r: &Record, key: &str) -> (res: Result<String, Error>)
    ensures
        shows(res, r@.str(key@)),
{
    match r.str(key) {
        Ok(v) => Ok(v),
        Err(e) => Err(lift(e)),
    }
}

fn number(r: &Record, key: &str) -> (res: Result<usize, Error>)
    ensures
        shows(res, r@.get::<usize>(key@)),
{
    match r.get::<usize>(key) {
        Ok(v) => Ok(v),
        Err(e) => Err(lift(e)),
    }
}

fn flag(r: &Record, key: &str) -> (res: Result<bool, Error>)
    ensures
        shows(res, r@.flag(key@)),
{
    match r.flag(key) {
        Ok(v) => Ok(v),
        Err(e) => Err(lift(e)),
    }
}

fn read_kernel(m: &Manifest, seen: &Vec<KernelSpec>, r: &Record) -> (res: Result<KernelSpec, Error>)
    ensures
        shows(res, kernel_of(m@, kernel_views(seen@), r@)),
{
    let key = match r.field(0) {
        Ok(k) => k.to_owned(),
        Err(e) => return Err(lift(e)),
    };
    let ghost vs = kernel_views(seen@);
    let mut i: usize = 0;
    while i < seen.len()
        invariant
            i <= seen.len(),
            vs == kernel_views(seen@),
            r@.field(0) == Ok::<Seq<char>, Seq<char>>(key@),
            forall|j: int| 0 <= j < i ==> (#[trigger] vs[j]).key != key@,
        decreases seen.len() - i,
    {
        if same(seen[i].key.as_str(), key.as_str()) {
            proof {
                assert(vs[i as int].key == key@);
            }
            return Err(lift(r.error(cat3("kernel ", key.as_str(), " defined twice").as_str())));
        }
        i += 1;
    }
    let ctx = text_field(r, "ctx")?;
    let x = match m.xclbin(ctx.as_str()) {
        Ok(x) => x,
        Err(e) => return Err(lift(r.error(e.message().as_str()))),
    };
    let insts = text_field(r, "insts")?;
    Ok(
        KernelSpec {
            key,
            xclbin: x.path.clone(),
            insts: m.path(insts.as_str()),
            name: x.kernel.clone(),
            m: number(r, "M")?,
            k: number(r, "K")?,
            n: number(r, "N")?,
            a_elems: number(r, "a_elems")?,
            b_bytes: number(r, "b_bytes")?,
            c_elems: number(r, "c_elems")?,
        },
    )
}

fn read_conv(seen: &Vec<ConvSpec>, r: &Record) -> (res: Result<ConvSpec, Error>)
    ensures
        shows(res, conv_of(conv_views(seen@), r@)),
{
    let name = match r.field(0) {
        Ok(k) => k.to_owned(),
        Err(e) => return Err(lift(e)),
    };
    let ghost vs = conv_views(seen@);
    let mut i: usize = 0;
    while i < seen.len()
        invariant
            i <= seen.len(),
            vs == conv_views(seen@),
            r@.field(0) == Ok::<Seq<char>, Seq<char>>(name@),
            forall|j: int| 0 <= j < i ==> (#[trigger] vs[j]).name != name@,
        decreases seen.len() - i,
    {
        if same(seen[i].name.as_str(), name.as_str()) {
            proof {
                assert(vs[i as int].name == name@);
            }
            return Err(lift(r.error(cat3("conv ", name.as_str(), " defined twice").as_str())));
        }
        i += 1;
    }
    Ok(
        ConvSpec {
            name,
            kernel: text_field(r, "kernel")?,
            c: number(r, "C")?,
            oc: number(r, "OC")?,
            pool_before: flag(r, "pool_before")?,
            m_chunk: number(r, "m_chunk")?,
            p: number(r, "P")?,
            window: flag(r, "window")?,
            d: number(r, "D")?,
            b: text_field(r, "b")?,
            bias: text_field(r, "bias")?,
        },
    )
}

fn read_dense(r: &Record, outputs_first: bool) -> (res: Result<DenseSpec, Error>)
    ensures
        shows(res, dense_of(r@, outputs_first)),
{
    let w = text_field(r, "w")?;
    let b = text_field(r, "b")?;
    if outputs_first {
        let outputs: usize = number(r, "out")?;
        let inputs: usize = number(r, "in")?;
        Ok(DenseSpec { w, b, inputs, outputs })
    } else {
        let inputs: usize = number(r, "in")?;
        let outputs: usize = number(r, "out")?;
        Ok(DenseSpec { w, b, inputs, outputs })
    }
}

fn read_fc1(r: &Record) -> (res: Result<Fc1Spec, Error>)
    ensures
        shows(res, fc1_of(r@)),
{
    Ok(
        Fc1Spec {
            kernel: text_field(r, "kernel")?,
            b: text_field(r, "b")?,
            bias: text_field(r, "bias")?,
            k: number(r, "k")?,
            k_pad: number(r, "k_pad")?,
            n: number(r, "n")?,
            m: number(r, "m")?,
        },
    )
}

fn read_fc3(r: &Record) -> (res: Result<DenseSpec, Error>)
    ensures
        shows(res, fc3_of(r@)),
{
    Ok(DenseSpec { w: text_field(r, "w")?, b: text_field(r, "b")?, inputs: number(r, "in")?, outputs: 1 })
}

fn read_ref(r: &Record) -> (res: Result<RefSpec, Error>)
    ensures
        shows(res, ref_of(r@)),
{
    Ok(
        RefSpec {
            image: text_field(r, "image")?,
            w: number(r, "w")?,
            h: number(r, "h")?,
            n_anchors: number(r, "anchors")?,
            src_w: number(r, "src_w")?,
            src_h: number(r, "src_h")?,
        },
    )
}

/// Fills `slot`, which may be filled once.
fn once<T: View>(slot: &mut Option<T>, r: &Record, v: T) -> (res: Result<(), Error>)
    ensures
        match (res, once_of(opt_view(*old(slot)), r@, Ok::<T::V, Seq<char>>(v@))) {
            (Ok(_), Ok(x)) => opt_view(*final(slot)) == x,
            (Err(e), Err(m)) => says(e, m),
            _ => false,
        },
{
    if slot.is_some() {
        return Err(lift(r.error(cat3("second ", r.tag.as_str(), " record").as_str())));
    }
    *slot = Some(v);
    Ok(())
}

/// The records of a bundle, as read so far.
struct Reader {
    kernels: Vec<KernelSpec>,
    convs: Vec<ConvSpec>,
    dimred: Option<DenseSpec>,
    fc1: Option<Fc1Spec>,
    fc2: Option<DenseSpec>,
    fc3: Option<DenseSpec>,
    reference: Option<RefSpec>,
}

impl View for Reader {
    type V = Table;

    closed spec fn view(&self) -> Table {
        Table {
            kernels: kernel_views(self.kernels@),
            convs: conv_views(self.convs@),
            dimred: opt_view(self.dimred),
            fc1: opt_view(self.fc1),
            fc2: opt_view(self.fc2),
            fc3: opt_view(self.fc3),
            reference: opt_view(self.reference),
        }
    }
}

impl Reader {
    fn apply(&mut self, m: &Manifest, r: &Record) -> (res: Result<(), Error>)
        ensures
            match (res, old(self)@.with(m@, r@)) {
                (Ok(_), Ok(t)) => final(self)@ == t,
                (Err(e), Err(msg)) => says(e, msg),
                _ => false,
            },
    {
        let tag = r.tag.as_str();
        if same(tag, "kernel") {
            let k = read_kernel(m, &self.kernels, r)?;
            proof {
                assert(kernel_views(self.kernels@.push(k)) =~= kernel_views(self.kernels@).push(k@));
            }
            self.kernels.push(k);
            Ok(())
        } else if same(tag, "conv") {
            let c = read_conv(&self.convs, r)?;
            proof {
                assert(conv_views(self.convs@.push(c)) =~= conv_views(self.convs@).push(c@));
            }
            self.convs.push(c);
            Ok(())
        } else if same(tag, "dimred") {
            let v = read_dense(r, true)?;
            once(&mut self.dimred, r, v)
        } else if same(tag, "fc1") {
            let v = read_fc1(r)?;
            once(&mut self.fc1, r, v)
        } else if same(tag, "fc2") {
            let v = read_dense(r, false)?;
            once(&mut self.fc2, r, v)
        } else if same(tag, "fc3") {
            let v = read_fc3(r)?;
            once(&mut self.fc3, r, v)
        } else if same(tag, "ref") {
            let v = read_ref(r)?;
            once(&mut self.reference, r, v)
        } else {
            Err(lift(r.error(cat2("unknown record ", quoted(tag).as_str()).as_str())))
        }
    }

    fn read(m: &Manifest) -> (res: Result<Reader, Error>)
        ensures
            shows(res, table_of(m@, m@.records)),
    {
        let rs = m.records();
        let ghost all = m@.records;
        let mut t = Reader {
            kernels: Vec::new(),
            convs: Vec::new(),
            dimred: None,
            fc1: None,
            fc2: None,
            fc3: None,
            reference: None,
        };
        let mut i: usize = 0;
        proof {
            assert(all.take(0) =~= seq![]);
            assert(kernel_views(t.kernels@) =~= seq![]);
            assert(conv_views(t.convs@) =~= seq![]);
        }
        while i < rs.len()
            invariant
                i <= rs.len(),
                all == m@.records,
                manifest::record_views(rs@) == all,
                table_of(m@, all.take(i as int)) == Ok::<Table, Seq<char>>(t@),
            decreases rs.len() - i,
        {
            proof {
                assert(all.take(i + 1).drop_last() =~= all.take(i as int));
                assert(all.take(i + 1).last() == rs@[i as int]@);
                if table_of(m@, all.take(i + 1)) is Err {
                    table_error(m@, all, i + 1);
                }
            }
            match t.apply(m, &rs[i]) {
                Ok(_) => {},
                Err(e) => return Err(e),
            }
            i += 1;
        }
        proof {
            assert(all.take(i as int) =~= all);
        }
        Ok(t)
    }
}

// ----------------------------------------------------------------------------
// The bundle
// ----------------------------------------------------------------------------

pub struct Bundle {
    pub dir: String,
    pub kernels: Vec<KernelSpec>,
    pub convs: Vec<ConvSpec>,
    pub f3: String,
    pub f4: String,
    /// The 1x1 reduction of the three feature maps side by side.
    pub dimred: DenseSpec,
    pub fc1: Fc1Spec,
    pub fc2: DenseSpec,
    pub fc3: DenseSpec,
    pub align_size: usize,
    /// A floating-point literal.
    pub spatial_scale: String,
    pub reference: Option<RefSpec>,
    /// Every tensor the records name.
    pub store: Store,
}

pub struct BundleView {
    pub dir: Seq<char>,
    pub kernels: Seq<KernelView>,
    pub convs: Seq<ConvView>,
    pub f3: Seq<char>,
    pub f4: Seq<char>,
    pub dimred: DenseView,
    pub fc1: Fc1View,
    pub fc2: DenseView,
    pub fc3: DenseView,
    pub align_size: usize,
    pub spatial_scale: Seq<char>,
    pub reference: Option<RefView>,
    pub store: StoreView,
}

impl View for Bundle {
    type V = BundleView;

    open spec fn view(&self) -> BundleView {
        BundleView {
            dir: self.dir@,
            kernels: kernel_views(self.kernels@),
            convs: conv_views(self.convs@),
            f3: self.f3@,
            f4: self.f4@,
            dimred: self.dimred@,
            fc1: self.fc1@,
            fc2: self.fc2@,
            fc3: self.fc3@,
            align_size: self.align_size,
            spatial_scale: self.spatial_scale@,
            reference: opt_view(self.reference),
            store: self.store@,
        }
    }
}

/// The kernel named `key`.
pub open spec fn kernel_in(ks: Seq<KernelView>, key: Seq<char>) -> Result<KernelView, Seq<char>>
    decreases ks.len(),
{
    if ks.len() == 0 {
        Err("no kernel "@ + quoted_text(key) + " in the manifest"@)
    } else if ks[0].key == key {
        Ok(ks[0])
    } else {
        kernel_in(ks.skip(1), key)
    }
}

/// The first of two faults.
pub open spec fn first(a: Option<Seq<char>>, b: Option<Seq<char>>) -> Option<Seq<char>> {
    if a is Some {
        a
    } else {
        b
    }
}

pub open spec fn fault_of<T>(r: Result<T, Seq<char>>) -> Option<Seq<char>> {
    match r {
        Ok(_) => None,
        Err(m) => Some(m),
    }
}

/// Whether the sizes of a conv's operands are machine integers.
pub open spec fn conv_sizes_fit(c: ConvView) -> bool {
    &&& c.p * c.oc <= usize::MAX
    &&& c.m_chunk * c.p * c.oc <= usize::MAX
    &&& (c.p + 2) * c.d <= usize::MAX
    &&& (c.m_chunk * c.p + 2) * c.d <= usize::MAX
    &&& c.p * 9 * c.c <= usize::MAX
    &&& 3 * c.c <= usize::MAX
}

/// Whether conv `c`, fed `c_in` channels, and its kernel `k` agree: the
/// channels chain, and the GEMM has the shape of the conv's layout.
pub open spec fn conv_fault(c: ConvView, k: KernelView, c_in: usize) -> Option<Seq<char>> {
    let at = c.name + ": "@;
    let want_k = if c.window {
        k.k as int
    } else {
        (c.p + 2) * c.d
    };
    let want_a = if c.window {
        c.m_chunk * k.k
    } else {
        (c.m_chunk * c.p + 2) * c.d
    };
    if c.c != c_in {
        Some(
            at + "takes "@ + decimal(c.c as nat) + " channels, the previous layer makes "@ + decimal(c_in as nat),
        )
    } else if k.m != c.m_chunk || k.n != c.p * c.oc {
        Some(
            at + "kernel "@ + k.key + " is ["@ + decimal(k.m as nat) + ", "@ + decimal(k.n as nat) + "], expected ["@
                + decimal(c.m_chunk as nat) + ", "@ + decimal((c.p * c.oc) as nat) + "]"@,
        )
    } else if c.window && (c.d != 3 * c.c || c.p * 9 * c.c > k.k) {
        Some(at + "window layer with D "@ + decimal(c.d as nat) + " / K "@ + decimal(k.k as nat))
    } else if k.k != want_k || k.a_elems != want_a || k.c_elems != c.m_chunk * c.p * c.oc {
        Some(at + "kernel "@ + k.key + " does not match the conv's layout"@)
    } else if !c.window && c.d < 3 * c.c {
        Some(at + "D "@ + decimal(c.d as nat) + " < 3C"@)
    } else {
        None
    }
}

/// The first fault of the convs `cs`, the first of which is fed `c_in`
/// channels and each later one what the one before it makes.
pub open spec fn chain_fault(ks: Seq<KernelView>, cs: Seq<ConvView>, c_in: usize) -> Option<Seq<char>>
    decreases cs.len(),
{
    if cs.len() == 0 {
        None
    } else {
        match kernel_in(ks, cs[0].kernel) {
            Err(m) => Some(m),
            Ok(k) => if !conv_sizes_fit(cs[0]) {
                Some(cs[0].name + ": "@ + "sizes overflow"@)
            } else {
                first(conv_fault(cs[0], k, c_in), chain_fault(ks, cs.skip(1), cs[0].oc))
            },
        }
    }
}

pub open spec fn has_conv(cs: Seq<ConvView>, name: Seq<char>) -> bool {
    exists|i: int| 0 <= i < cs.len() && (#[trigger] cs[i]).name == name
}

/// The first disagreement between the layers: the convs and their kernels,
/// fc1 and its kernel, the sizes of the fully connected layers after an
/// alignment to `s` by `s`, and the names of the two shallower maps.
pub open spec fn network_fault(
    kernels: Seq<KernelView>,
    convs: Seq<ConvView>,
    f3: Seq<char>,
    f4: Seq<char>,
    dimred: DenseView,
    fc1: Fc1View,
    fc2: DenseView,
    s: usize,
) -> Option<Seq<char>> {
    first(
        chain_fault(kernels, convs, 3),
        match kernel_in(kernels, fc1.kernel) {
            Err(m) => Some(m),
            Ok(k) => if k.m != fc1.m || k.k != fc1.k_pad || k.n != fc1.n {
                Some("fc1 kernel shape mismatch"@)
            } else if fc1.k != 2 * dimred.outputs * s * s || fc2.inputs != fc1.n {
                Some("fc layer sizes do not chain"@)
            } else if !has_conv(convs, f3) {
                Some("f3/f4 name an unknown conv "@ + quoted_text(f3))
            } else if !has_conv(convs, f4) {
                Some("f3/f4 name an unknown conv "@ + quoted_text(f4))
            } else {
                None
            },
        },
    )
}

impl BundleView {
    /// The first disagreement between the records.
    pub open spec fn fault(self) -> Option<Seq<char>> {
        network_fault(
            self.kernels,
            self.convs,
            self.f3,
            self.f4,
            self.dimred,
            self.fc1,
            self.fc2,
            self.align_size,
        )
    }

    /// The fault of a packed tensor that must be `bytes` long.
    pub open spec fn packed_fault(self, name: Seq<char>, bytes: usize) -> Option<Seq<char>> {
        match self.store.bytes(name) {
            Err(m) => Some(m),
            Ok(b) => if b.len() != bytes {
                Some(
                    "tensor "@ + name + " is "@ + decimal(b.len()) + " bytes, the kernel takes "@ + decimal(
                        bytes as nat,
                    ),
                )
            } else {
                None
            },
        }
    }

    pub open spec fn floats_fault(self, name: Seq<char>, elems: nat) -> Option<Seq<char>> {
        fault_of(self.store.expect(name, DType::F32, elems))
    }

    /// The first fault of the tensors that the convs `cs` name.
    pub open spec fn conv_tensor_fault(self, cs: Seq<ConvView>) -> Option<Seq<char>>
        decreases cs.len(),
    {
        if cs.len() == 0 {
            None
        } else {
            let c = cs[0];
            match kernel_in(self.kernels, c.kernel) {
                Err(m) => Some(m),
                Ok(k) => first(
                    first(self.packed_fault(c.b, k.b_bytes), self.floats_fault(c.bias, c.oc as nat)),
                    self.conv_tensor_fault(cs.skip(1)),
                ),
            }
        }
    }

    /// Whether the element counts of the host layers and of the self-check
    /// are machine integers.
    pub open spec fn counts_fit(self) -> bool {
        &&& self.dimred.outputs * self.dimred.inputs <= usize::MAX
        &&& self.fc2.outputs * self.fc2.inputs <= usize::MAX
        &&& self.reference matches Some(r) ==> {
            &&& self.dimred.outputs * (r.h / 16) * (r.w / 16) <= usize::MAX
            &&& r.src_h * r.src_w * 3 <= usize::MAX
            &&& 3 * r.h * r.w <= usize::MAX
            &&& r.n_anchors * 4 <= usize::MAX
        }
    }

    /// The first fault of the self-check's tensors.
    pub open spec fn ref_fault(self) -> Option<Seq<char>> {
        match self.reference {
            None => None,
            Some(r) => {
                let red = (self.dimred.outputs * (r.h / 16) * (r.w / 16)) as nat;
                let n = r.n_anchors as nat;
                let a = fault_of(self.store.expect("ref.src_rgb"@, DType::U8, (r.src_h * r.src_w * 3) as nat));
                let b = first(a, self.floats_fault("ref.input_chw"@, (3 * r.h * r.w) as nat));
                let c = first(b, self.floats_fault("ref.red_cpu"@, red));
                let d = first(c, self.floats_fault("ref.red_npu"@, red));
                let e = first(d, fault_of(self.store.expect("ref.anchors"@, DType::I32, n * 4)));
                let f = first(e, self.floats_fault("ref.scores_cpu"@, n));
                first(f, self.floats_fault("ref.scores_npu"@, n))
            },
        }
    }

    /// The first tensor that is missing or has not the size its record
    /// implies.
    pub open spec fn tensor_fault(self) -> Option<Seq<char>> {
        match kernel_in(self.kernels, self.fc1.kernel) {
            Err(m) => first(self.conv_tensor_fault(self.convs), Some(m)),
            Ok(k) => if !self.counts_fit() {
                Some("tensor sizes overflow"@)
            } else {
                let a = first(self.conv_tensor_fault(self.convs), self.packed_fault(self.fc1.b, k.b_bytes));
                let b = first(a, self.floats_fault(self.fc1.bias, self.fc1.n as nat));
                let c = first(
                    b,
                    self.floats_fault(self.dimred.w, (self.dimred.outputs * self.dimred.inputs) as nat),
                );
                let d = first(c, self.floats_fault(self.dimred.b, self.dimred.outputs as nat));
                let e = first(d, self.floats_fault(self.fc2.w, (self.fc2.outputs * self.fc2.inputs) as nat));
                let f = first(e, self.floats_fault(self.fc2.b, self.fc2.outputs as nat));
                let g = first(f, self.floats_fault(self.fc3.w, self.fc2.outputs as nat));
                let h = first(g, self.floats_fault(self.fc3.b, 1));
                first(h, self.ref_fault())
            },
        }
    }
}

/// The bundle that manifest `m`, read in `dir`, and store `st` are.
pub open spec fn assembled(dir: Seq<char>, m: ManifestView, st: StoreView) -> Result<BundleView, Seq<char>> {
    let missing = |what: Seq<char>| joined(dir, "manifest.txt"@) + ": no "@ + what + " record"@;
    match table_of(m, m.records) {
        Err(e) => Err(e),
        Ok(t) => match (t.dimred, t.fc2, t.fc3) {
            (None, _, _) => Err(missing("dimred"@)),
            (_, None, _) => Err(missing("fc2"@)),
            (_, _, None) => Err(missing("fc3"@)),
            (Some(dimred), Some(fc2), Some(fc3)) => if fc3.inputs != fc2.outputs {
                Err(
                    "fc3 takes "@ + decimal(fc3.inputs as nat) + " inputs, fc2 makes "@ + decimal(fc2.outputs as nat),
                )
            } else {
                match (m.param("f3"@), m.param("f4"@), t.fc1, m.param_as::<usize>("align_size"@), scale_of(m)) {
                    (Err(e), _, _, _, _) => Err(e),
                    (_, Err(e), _, _, _) => Err(e),
                    (_, _, None, _, _) => Err(missing("fc1"@)),
                    (_, _, _, Err(e), _) => Err(e),
                    (_, _, _, _, Err(e)) => Err(e),
                    (Ok(f3), Ok(f4), Some(fc1), Ok(align_size), Ok(spatial_scale)) => Ok(
                        BundleView {
                            dir,
                            kernels: t.kernels,
                            convs: t.convs,
                            f3,
                            f4,
                            dimred,
                            fc1,
                            fc2,
                            fc3,
                            align_size,
                            spatial_scale,
                            reference: t.reference,
                            store: st,
                        },
                    ),
                }
            },
        },
    }
}

/// The `spatial_scale` param, which must be a number.
pub open spec fn scale_of(m: ManifestView) -> Result<Seq<char>, Seq<char>> {
    match m.param("spatial_scale"@) {
        Err(e) => Err(e),
        Ok(v) => if is_real(v) {
            Ok(v)
        } else {
            Err("param spatial_scale ("@ + v + ") is malformed"@)
        },
    }
}

/// The bundle in `dir`: the text of its manifest, of its tensor index (none
/// where the file is not there), and its blob.
pub open spec fn bundle_of(
    dir: Seq<char>,
    manifest: Seq<char>,
    index: Option<Seq<char>>,
    data: Seq<u8>,
) -> Result<BundleView, Seq<char>> {
    if index is None && starts_with(manifest, "gaic "@) {
        Err(
            dir
                + " is an old-format GAIC bundle (`gaic <version>` manifest, one file a tensor); re-export it with python -m iron.applications.gaic.export_gaic"@,
        )
    } else {
        match manifest_of(dir, manifest, VERSION) {
            Err(e) => Err(e),
            Ok(m) => match index {
                None => Err(joined(dir, "tensors.txt"@) + ": not found"@),
                Some(index) => match store_of(index, data) {
                    Err(e) => Err(e),
                    Ok(st) => match assembled(dir, m, st) {
                        Err(e) => Err(e),
                        Ok(b) => match first(b.fault(), b.tensor_fault()) {
                            Some(e) => Err(e),
                            None => Ok(b),
                        },
                    },
                },
            },
        }
    }
}

/// The kernel named `key`.
pub(crate) fn find_kernel<'a>(kernels: &'a Vec<KernelSpec>, key: &str) -> (r: Result<&'a KernelSpec, Error>)
    ensures
        shows(r, kernel_in(kernel_views(kernels@), key@)),
{
    let ghost ks = kernel_views(kernels@);
    let mut i: usize = 0;
    proof {
        assert(ks.skip(0) =~= ks);
    }
    while i < kernels.len()
        invariant
            i <= kernels@.len(),
            ks == kernel_views(kernels@),
            kernel_in(kernel_views(kernels@), key@) == kernel_in(ks.skip(i as int), key@),
        decreases kernels@.len() - i,
    {
        proof {
            assert(ks.skip(i as int).skip(1) =~= ks.skip(i + 1));
        }
        if same(kernels[i].key.as_str(), key) {
            return Ok(&kernels[i]);
        }
        i += 1;
    }
    Err(Error::Bundle(cat3("no kernel ", quoted(key).as_str(), " in the manifest")))
}

fn conv_known(convs: &Vec<ConvSpec>, name: &str) -> (r: bool)
    ensures
        r == has_conv(conv_views(convs@), name@),
{
    let ghost cs = conv_views(convs@);
    let mut i: usize = 0;
    while i < convs.len()
        invariant
            i <= convs@.len(),
            cs == conv_views(convs@),
            forall|j: int| 0 <= j < i ==> (#[trigger] cs[j]).name != name@,
        decreases convs@.len() - i,
    {
        if same(convs[i].name.as_str(), name) {
            proof {
                assert(cs[i as int].name == name@);
            }
            return true;
        }
        i += 1;
    }
    false
}

/// Whether a conv and its kernel agree; the message says where not.
fn check_conv(c: &ConvSpec, k: &KernelSpec, c_in: usize) -> (r: Option<String>)
    ensures
        opt_view(r) == (if !conv_sizes_fit(c@) {
            Some(c@.name + ": "@ + "sizes overflow"@)
        } else {
            conv_fault(c@, k@, c_in)
        }),
{
    let at = cat2(c.name.as_str(), ": ");
    let (n, c_elems, view_k, view_a, taps, c3) = match (
        mul2(c.p, c.oc),
        mul3(c.m_chunk, c.p, c.oc),
        plus2_mul(c.p, c.d),
        match mul2(c.m_chunk, c.p) {
            Some(v) => plus2_mul(v, c.d),
            None => if c.d == 0 {
                proof {
                    assert((c.m_chunk * c.p + 2) * c.d == 0) by (nonlinear_arith)
                        requires
                            c.d == 0,
                    ;
                }
                Some(0)
            } else {
                proof {
                    assert((c.m_chunk * c.p + 2) * c.d >= c.m_chunk * c.p + 2) by (nonlinear_arith)
                        requires
                            c.d >= 1,
                            c.m_chunk * c.p >= 0,
                    ;
                }
                None
            },
        },
        mul3(c.p, 9, c.c),
        mul2(3, c.c),
    ) {
        (Some(n), Some(ce), Some(vk), Some(va), Some(t), Some(c3)) => (n, ce, vk, va, t, c3),
        _ => return Some(at.concat("sizes overflow")),
    };
    if c.c != c_in {
        let a = decimal_of(c.c as u128);
        let b = decimal_of(c_in as u128);
        return Some(
            at.concat("takes ").concat(a.as_str()).concat(" channels, the previous layer makes ").concat(b.as_str()),
        );
    }
    if k.m != c.m_chunk || k.n != n {
        let a = decimal_of(k.m as u128);
        let b = decimal_of(k.n as u128);
        let d = decimal_of(c.m_chunk as u128);
        let e = decimal_of(n as u128);
        return Some(
            at.concat("kernel ").concat(k.key.as_str()).concat(" is [").concat(a.as_str()).concat(", ").concat(
                b.as_str(),
            ).concat("], expected [").concat(d.as_str()).concat(", ").concat(e.as_str()).concat("]"),
        );
    }
    if c.window && (c.d != c3 || taps > k.k) {
        let a = decimal_of(c.d as u128);
        let b = decimal_of(k.k as u128);
        return Some(at.concat("window layer with D ").concat(a.as_str()).concat(" / K ").concat(b.as_str()));
    }
    let layout = if c.window {
        mul2(c.m_chunk, k.k) == Some(k.a_elems)
    } else {
        k.k == view_k && k.a_elems == view_a
    };
    if !layout || k.c_elems != c_elems {
        return Some(at.concat("kernel ").concat(k.key.as_str()).concat(" does not match the conv's layout"));
    }
    if !c.window && c.d < c3 {
        let a = decimal_of(c.d as u128);
        return Some(at.concat("D ").concat(a.as_str()).concat(" < 3C"));
    }
    None
}

/// The shapes the runtime's glue assumes, checked once up front so a
/// mismatched bundle is an error rather than garbage.
pub(crate) fn check_network(
    kernels: &Vec<KernelSpec>,
    convs: &Vec<ConvSpec>,
    f3: &String,
    f4: &String,
    dimred: &DenseSpec,
    fc1: &Fc1Spec,
    fc2: &DenseSpec,
    s: usize,
) -> (r: Result<(), Error>)
    ensures
        match (
            r,
            network_fault(kernel_views(kernels@), conv_views(convs@), f3@, f4@, dimred@, fc1@, fc2@, s),
        ) {
            (Ok(_), None) => true,
            (Err(e), Some(m)) => says(e, m),
            _ => false,
        },
{
    let ghost cs = conv_views(convs@);
    let ghost ks = kernel_views(kernels@);
    let mut c_in: usize = 3;
    let mut i: usize = 0;
    proof {
        assert(cs.skip(0) =~= cs);
    }
    while i < convs.len()
        invariant
            i <= convs@.len(),
            cs == conv_views(convs@),
            ks == kernel_views(kernels@),
            chain_fault(ks, cs, 3) == chain_fault(ks, cs.skip(i as int), c_in),
        decreases convs@.len() - i,
    {
        proof {
            assert(cs.skip(i as int).skip(1) =~= cs.skip(i + 1));
        }
        let c = &convs[i];
        let k = find_kernel(kernels, c.kernel.as_str())?;
        if let Some(m) = check_conv(c, k, c_in) {
            return Err(Error::Bundle(m));
        }
        c_in = c.oc;
        i += 1;
    }
    let k = find_kernel(kernels, fc1.kernel.as_str())?;
    if k.m != fc1.m || k.k != fc1.k_pad || k.n != fc1.n {
        return Err(Error::Bundle("fc1 kernel shape mismatch".to_owned()));
    }
    let inputs = match mul3(dimred.outputs, s, s) {
        Some(v) => mul2(2, v),
        None => None,
    };
    proof {
        let o = dimred.outputs as int;
        let si = s as int;
        assert(2 * o * si * si == 2 * (o * si * si)) by (nonlinear_arith);
    }
    if inputs != Some(fc1.k) || fc2.inputs != fc1.n {
        return Err(Error::Bundle("fc layer sizes do not chain".to_owned()));
    }
    if !conv_known(convs, f3.as_str()) {
        return Err(Error::Bundle(cat2("f3/f4 name an unknown conv ", quoted(f3.as_str()).as_str())));
    }
    if !conv_known(convs, f4.as_str()) {
        return Err(Error::Bundle(cat2("f3/f4 name an unknown conv ", quoted(f4.as_str()).as_str())));
    }
    Ok(())
}

impl Bundle {
    pub fn kernel(&self, key: &str) -> (r: Result<&KernelSpec, Error>)
        ensures
            shows(r, kernel_in(self@.kernels, key@)),
    {
        find_kernel(&self.kernels, key)
    }

    fn validate(&self) -> (r: Result<(), Error>)
        ensures
            match (r, self@.fault()) {
                (Ok(_), None) => true,
                (Err(e), Some(m)) => says(e, m),
                _ => false,
            },
    {
        check_network(
            &self.kernels,
            &self.convs,
            &self.f3,
            &self.f4,
            &self.dimred,
            &self.fc1,
            &self.fc2,
            self.align_size,
        )
    }

    fn check_packed(&self, name: &str, bytes: usize) -> (r: Result<(), Error>)
        ensures
            match (r, self@.packed_fault(name@, bytes)) {
                (Ok(_), None) => true,
                (Err(e), Some(m)) => says(e, m),
                _ => false,
            },
    {
        let got: usize = match self.store.bytes(name) {
            Ok(b) => b.len(),
            Err(e) => return Err(lift(e)),
        };
        if got != bytes {
            let a = decimal_of(got as u128);
            let b = decimal_of(bytes as u128);
            return Err(
                Error::Bundle(
                    cat5("tensor ", name, " is ", a.as_str(), " bytes, the kernel takes ").concat(b.as_str()),
                ),
            );
        }
        Ok(())
    }

    fn check_elems(&self, name: &str, dtype: DType, elems: usize) -> (r: Result<(), Error>)
        ensures
            match (r, fault_of(self@.store.expect(name@, dtype, elems as nat))) {
                (Ok(_), None) => true,
                (Err(e), Some(m)) => says(e, m),
                _ => false,
            },
    {
        match self.store.expect(name, dtype, elems) {
            Ok(_) => Ok(()),
            Err(e) => Err(lift(e)),
        }
    }

    fn check_conv_tensors(&self) -> (r: Result<(), Error>)
        ensures
            match (r, self@.conv_tensor_fault(self@.convs)) {
                (Ok(_), None) => true,
                (Err(e), Some(m)) => says(e, m),
                _ => false,
            },
    {
        let ghost cs = self@.convs;
        let mut i: usize = 0;
        proof {
            assert(cs.skip(0) =~= cs);
        }
        while i < self.convs.len()
            invariant
                i <= self.convs@.len(),
                cs == conv_views(self.convs@),
                self@.conv_tensor_fault(self@.convs) == self@.conv_tensor_fault(cs.skip(i as int)),
            decreases self.convs@.len() - i,
        {
            proof {
                assert(cs.skip(i as int).skip(1) =~= cs.skip(i + 1));
            }
            let c = &self.convs[i];
            let k = self.kernel(c.kernel.as_str())?;
            self.check_packed(c.b.as_str(), k.b_bytes)?;
            self.check_elems(c.bias.as_str(), DType::F32, c.oc)?;
            i += 1;
        }
        Ok(())
    }

    /// Every tensor a record names exists with the size the record implies.
    fn validate_tensors(&self) -> (r: Result<(), Error>)
        ensures
            match (r, self@.tensor_fault()) {
                (Ok(_), None) => true,
                (Err(e), Some(m)) => says(e, m),
                _ => false,
            },
    {
        let b_bytes: usize = match self.kernel(self.fc1.kernel.as_str()) {
            Ok(k) => k.b_bytes,
            Err(e) => {
                self.check_conv_tensors()?;
                return Err(e);
            },
        };
        let (dim, fc2) = match (mul2(self.dimred.outputs, self.dimred.inputs), mul2(self.fc2.outputs, self.fc2.inputs)) {
            (Some(a), Some(b)) => (a, b),
            _ => return Err(Error::Bundle("tensor sizes overflow".to_owned())),
        };
        let (red, rgb, chw, boxes): (usize, usize, usize, usize) = match &self.reference {
            None => (0, 0, 0, 0),
            Some(r) => match (
                mul3(self.dimred.outputs, r.h / 16, r.w / 16),
                mul3(r.src_h, r.src_w, 3),
                mul3(3, r.h, r.w),
                mul2(r.n_anchors, 4),
            ) {
                (Some(a), Some(b), Some(c), Some(d)) => (a, b, c, d),
                _ => return Err(Error::Bundle("tensor sizes overflow".to_owned())),
            },
        };
        self.check_conv_tensors()?;
        self.check_packed(self.fc1.b.as_str(), b_bytes)?;
        self.check_elems(self.fc1.bias.as_str(), DType::F32, self.fc1.n)?;
        self.check_elems(self.dimred.w.as_str(), DType::F32, dim)?;
        self.check_elems(self.dimred.b.as_str(), DType::F32, self.dimred.outputs)?;
        self.check_elems(self.fc2.w.as_str(), DType::F32, fc2)?;
        self.check_elems(self.fc2.b.as_str(), DType::F32, self.fc2.outputs)?;
        self.check_elems(self.fc3.w.as_str(), DType::F32, self.fc2.outputs)?;
        self.check_elems(self.fc3.b.as_str(), DType::F32, 1)?;
        if let Some(r) = &self.reference {
            self.check_elems("ref.src_rgb", DType::U8, rgb)?;
            self.check_elems("ref.input_chw", DType::F32, chw)?;
            self.check_elems("ref.red_cpu", DType::F32, red)?;
            self.check_elems("ref.red_npu", DType::F32, red)?;
            self.check_elems("ref.anchors", DType::I32, boxes)?;
            self.check_elems("ref.scores_cpu", DType::F32, r.n_anchors)?;
            self.check_elems("ref.scores_npu", DType::F32, r.n_anchors)?;
        }
        Ok(())
    }

    fn assemble(dir: &str, m: &Manifest, store: Store) -> (r: Result<Bundle, Error>)
        ensures
            shows(r, assembled(dir@, m@, store@)),
    {
        let t = Reader::read(m)?;
        let at = join(dir, "manifest.txt").concat(": no ");
        let dimred = match t.dimred {
            Some(x) => x,
            None => return Err(Error::Bundle(at.concat("dimred").concat(" record"))),
        };
        let fc2 = match t.fc2 {
            Some(x) => x,
            None => return Err(Error::Bundle(at.concat("fc2").concat(" record"))),
        };
        let fc3 = match t.fc3 {
            Some(x) => x,
            None => return Err(Error::Bundle(at.concat("fc3").concat(" record"))),
        };
        if fc3.inputs != fc2.outputs {
            let a = decimal_of(fc3.inputs as u128);
            let b = decimal_of(fc2.outputs as u128);
            return Err(
                Error::Bundle(cat3("fc3 takes ", a.as_str(), " inputs, fc2 makes ").concat(b.as_str())),
            );
        }
        let f3 = match m.param("f3") {
            Ok(v) => v.to_owned(),
            Err(e) => return Err(lift(e)),
        };
        let f4 = match m.param("f4") {
            Ok(v) => v.to_owned(),
            Err(e) => return Err(lift(e)),
        };
        let fc1 = match t.fc1 {
            Some(x) => x,
            None => return Err(Error::Bundle(at.concat("fc1").concat(" record"))),
        };
        let align_size: usize = match m.param_as::<usize>("align_size") {
            Ok(v) => v,
            Err(e) => return Err(lift(e)),
        };
        let spatial_scale = match m.param("spatial_scale") {
            Ok(v) => v.to_owned(),
            Err(e) => return Err(lift(e)),
        };
        if !denotes_real(spatial_scale.as_str()) {
            return Err(
                Error::Bundle(cat3("param spatial_scale (", spatial_scale.as_str(), ") is malformed")),
            );
        }
        Ok(
            Bundle {
                dir: dir.to_owned(),
                kernels: t.kernels,
                convs: t.convs,
                f3,
                f4,
                dimred,
                fc1,
                fc2,
                fc3,
                align_size,
                spatial_scale,
                reference: t.reference,
                store,
            },
        )
    }

    /// Reads and checks the bundle in `dir`: the text of its manifest, of
    /// its tensor index (`None` where the file is not there) and its blob.
    pub fn load(dir: &str, manifest: &str, index: Option<&str>, data: Vec<u8>) -> (r: Result<Bundle, Error>)
        ensures
            shows(r, bundle_of(dir@, manifest@, opt_view(index), data@)),
    {
        if index.is_none() && has_prefix(manifest, "gaic ") {
            return Err(
                Error::Bundle(
                    cat2(
                        dir,
                        " is an old-format GAIC bundle (`gaic <version>` manifest, one file a tensor); re-export it with python -m iron.applications.gaic.export_gaic",
                    ),
                ),
            );
        }
        let m = match Manifest::load(dir, manifest, VERSION) {
            Ok(m) => m,
            Err(e) => return Err(lift(e)),
        };
        let store = match index {
            None => return Err(Error::Bundle(join(dir, "tensors.txt").concat(": not found"))),
            Some(index) => match Store::load(index, data) {
                Ok(s) => s,
                Err(e) => return Err(lift(e)),
            },
        };
        let b = Self::assemble(dir, &m, store)?;
        b.validate()?;
        b.validate_tensors()?;
        Ok(b)
    }

    /// A float tensor, as bits.
    pub fn f32_vec(&self, name: &str) -> (r: Result<Vec<u32>, Error>)
        ensures
            match (r, self@.store.typed(name@, DType::F32)) {
                (Ok(v), Ok(b)) => v@ == elems32(b),
                (Err(e), Err(m)) => says(e, m),
                _ => false,
            },
    {
        match self.store.f32_bits(name) {
            Ok(v) => Ok(v),
            Err(e) => Err(lift(e)),
        }
    }
}

} // verus!
