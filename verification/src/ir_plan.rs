//! IR embedders recorded as a plan: a `plan.txt` of operations, one a line,
//! `<op> <key>=<value>...`, replayed in order over numbered buffers.
//!
//! Nothing of a plan but its input and its head is looked at before a
//! forward; each operation reads its keys when it runs, and a buffer keeps
//! whatever elements it was given: an operation fails only where it needs one
//! that is not there. A file is read once and kept (`Cache`). The device, the
//! files of the bundle and single-precision arithmetic come from the caller
//! (`Host`, `Ops`).

use crate::adaface::{acc_before, accumulate, copy16, defines, head, zeros, Run, RunView, Sink};
use crate::arith::{mul2, mul3};
use crate::dict::Dict;
use crate::gather::{copy32, widen, widened};
use crate::manifest::{join, joined, keyed, lookup};
use crate::plan_tiles::{
    affine, affine_step, bias_step, can_crop, can_walk, crop, crop_fits, flat, held, is_sum, prelu_bias, prelu_step, shift,
    slice, slice_fits, subsample, subsample_fits, total, walk_fits, walks_to, zeros16,
};
use crate::text::{
    cat2, cat3, cat4, chars_of, decimal, decimal_of, lines, same, split_lines, split_words, texts, words, FromText,
};
use crate::tiled::{cropped, planar, sliced, subsampled, tile_image, tile_len, tile_len_is, tiled_image, Buf, Ops};
use crate::wire::bits64;
use std::collections::HashMap;
use vstd::prelude::*;

verus! {

broadcast use vstd::std_specs::hash::group_hash_axioms;

/// Everything that can go wrong loading a plan or running a forward.
#[derive(Debug)]
pub enum Error {
    /// A bundle file could not be read: its path, and the system's message.
    Io(String, String),
    /// The plan is malformed or references an undefined buffer.
    Plan(String),
    /// The device reported an error.
    Xrt(String),
    /// The caller-supplied input tensor has the wrong shape.
    Input(String),
}

impl Error {
    /// The text shown for an error.
    pub open spec fn shown(&self) -> Seq<char> {
        match self {
            Error::Io(p, e) => "cannot read "@ + p@ + ": "@ + e@,
            Error::Plan(s) => "bad plan: "@ + s@,
            Error::Xrt(s) => "XRT: "@ + s@,
            Error::Input(s) => "bad input: "@ + s@,
        }
    }

    pub fn message(&self) -> (r: String)
        ensures
            r@ == self.shown(),
    {
        match self {
            Error::Io(p, e) => cat4("cannot read ", p.as_str(), ": ", e.as_str()),
            Error::Plan(s) => cat2("bad plan: ", s.as_str()),
            Error::Xrt(s) => cat2("XRT: ", s.as_str()),
            Error::Input(s) => cat2("bad input: ", s.as_str()),
        }
    }
}

pub open spec fn plan_error(e: Error, m: Seq<char>) -> bool {
    e matches Error::Plan(s) && s@ == m
}

pub open spec fn input_error(e: Error, m: Seq<char>) -> bool {
    e matches Error::Input(s) && s@ == m
}

// ----------------------------------------------------------------------------
// Operations
// ----------------------------------------------------------------------------

/// One line of a plan.
#[derive(Debug)]
pub struct Op {
    pub name: String,
    pub fields: Vec<String>,
}

pub struct OpView {
    pub name: Seq<char>,
    pub fields: Seq<Seq<char>>,
}

impl View for Op {
    type V = OpView;

    open spec fn view(&self) -> OpView {
        OpView { name: self.name@, fields: texts(self.fields@) }
    }
}

pub open spec fn op_views(v: Seq<Op>) -> Seq<OpView> {
    v.map_values(|o: Op| o@)
}

/// The operations of the lines `ls`; blank ones are none.
pub open spec fn ops_of(ls: Seq<Seq<char>>) -> Seq<OpView>
    decreases ls.len(),
{
    if ls.len() == 0 {
        Seq::empty()
    } else {
        let w = words(ls.last());
        if w.len() == 0 {
            ops_of(ls.drop_last())
        } else {
            ops_of(ls.drop_last()).push(OpView { name: w[0], fields: w.skip(1) })
        }
    }
}

fn read_ops(text: &str) -> (r: Vec<Op>)
    ensures
        op_views(r@) == ops_of(lines(text@)),
{
    let ls = split_lines(text);
    let ghost all = lines(text@);
    let mut out: Vec<Op> = Vec::new();
    proof {
        assert(op_views(out@) =~= Seq::empty());
        assert(all.take(0) =~= Seq::empty());
    }
    let mut i: usize = 0;
    while i < ls.len()
        invariant
            i <= ls.len(),
            texts(ls@) == all,
            op_views(out@) == ops_of(all.take(i as int)),
        decreases ls.len() - i,
    {
        let c = chars_of(ls[i].as_str());
        let mut w = split_words(c.as_slice());
        proof {
            assert(all.take(i + 1).drop_last() =~= all.take(i as int));
            assert(all.take(i + 1).last() == texts(ls@)[i as int]);
            assert(texts(w@).len() == w@.len());
        }
        if w.len() > 0 {
            let ghost before = w@;
            let name = w.remove(0);
            let op = Op { name, fields: w };
            proof {
                assert(texts(op.fields@) =~= texts(before).skip(1));
                assert(op.name@ == texts(before)[0]);
                assert(op_views(out@.push(op)) =~= op_views(out@).push(op@));
            }
            out.push(op);
        }
        i = i + 1;
    }
    proof {
        assert(all.take(all.len() as int) =~= all);
        assert(texts(ls@).len() == ls@.len());
    }
    out
}

impl OpView {
    pub open spec fn gets(self, k: Seq<char>) -> Result<Seq<char>, Seq<char>> {
        match keyed(self.fields, k) {
            Some(v) => Ok(v),
            None => Err("missing key "@ + k),
        }
    }

    pub open spec fn geti(self, k: Seq<char>) -> Result<i64, Seq<char>> {
        match self.gets(k) {
            Err(m) => Err(m),
            Ok(v) => match i64::from_text(v) {
                Some(x) => Ok(x),
                None => Err("bad integer for key "@ + k),
            },
        }
    }

    /// A buffer's number: the integer's low 32 bits.
    pub open spec fn id(self, k: Seq<char>) -> Result<u32, Seq<char>> {
        match self.geti(k) {
            Err(m) => Err(m),
            Ok(v) => Ok((bits64(v) % 0x1_0000_0000) as u32),
        }
    }

    /// A size: the integer's bits.
    pub open spec fn size(self, k: Seq<char>) -> Result<u64, Seq<char>> {
        match self.geti(k) {
            Err(m) => Err(m),
            Ok(v) => Ok(bits64(v) as u64),
        }
    }
}

/// Whether `r` is `want`: the value, or a plan error with the message.
pub open spec fn comes<T>(r: Result<T, Error>, want: Result<T, Seq<char>>) -> bool {
    match (r, want) {
        (Ok(v), Ok(w)) => v == w,
        (Err(e), Err(m)) => plan_error(e, m),
        _ => false,
    }
}

pub open spec fn shows<T: View>(r: Result<T, Error>, want: Result<T::V, Seq<char>>) -> bool {
    match (r, want) {
        (Ok(v), Ok(w)) => v@ == w,
        (Err(e), Err(m)) => plan_error(e, m),
        _ => false,
    }
}

impl Op {
    fn gets(&self, k: &str) -> (r: Result<String, Error>)
        ensures
            shows(r, self@.gets(k@)),
    {
        match lookup(&self.fields, k) {
            Some(v) => Ok(v),
            None => Err(Error::Plan(cat2("missing key ", k))),
        }
    }

    fn geti(&self, k: &str) -> (r: Result<i64, Error>)
        ensures
            comes(r, self@.geti(k@)),
    {
        let v = self.gets(k)?;
        match i64::parse_text(v.as_str()) {
            Some(x) => Ok(x),
            None => Err(Error::Plan(cat2("bad integer for key ", k))),
        }
    }

    fn size(&self, k: &str) -> (r: Result<u64, Error>)
        ensures
            comes(r, self@.size(k@)),
    {
        let v: i64 = self.geti(k)?;
        if v < 0 {
            Ok((v as i128 + 0x1_0000_0000_0000_0000) as u64)
        } else {
            Ok(v as u64)
        }
    }

    fn id(&self, k: &str) -> (r: Result<u32, Error>)
        ensures
            comes(r, self@.id(k@)),
    {
        let v: u64 = self.size(k)?;
        Ok((v % 0x1_0000_0000) as u32)
    }
}

// ----------------------------------------------------------------------------
// The plan
// ----------------------------------------------------------------------------

/// What the operations say of a forward's ends.
pub struct Ends {
    pub c: u64,
    pub h: u64,
    pub w: u64,
    pub embed_dim: u64,
}

/// The channels, rows and columns an operation names.
pub open spec fn dims_of(o: OpView) -> Result<(u64, u64, u64), Seq<char>> {
    match (o.size("c"@), o.size("h"@), o.size("w"@)) {
        (Err(m), _, _) => Err(m),
        (_, Err(m), _) => Err(m),
        (_, _, Err(m)) => Err(m),
        (Ok(c), Ok(h), Ok(w)) => Ok((c, h, w)),
    }
}

/// The last input and the last head among `ops`.
pub open spec fn ends_of(ops: Seq<OpView>) -> Result<Ends, Seq<char>>
    decreases ops.len(),
{
    if ops.len() == 0 {
        Ok(Ends { c: 0, h: 0, w: 0, embed_dim: 0 })
    } else {
        match ends_of(ops.drop_last()) {
            Err(m) => Err(m),
            Ok(e) => if ops.last().name == "INPUT"@ {
                match dims_of(ops.last()) {
                    Err(m) => Err(m),
                    Ok((c, h, w)) => Ok(Ends { c, h, w, embed_dim: e.embed_dim }),
                }
            } else if ops.last().name == "HEAD"@ {
                match ops.last().size("n"@) {
                    Err(m) => Err(m),
                    Ok(n) => Ok(Ends { embed_dim: n, ..e }),
                }
            } else {
                Ok(e)
            },
        }
    }
}

pub struct PlanView {
    pub ops: Seq<OpView>,
    pub ends: Ends,
}

pub open spec fn plan_of(text: Seq<char>) -> Result<PlanView, Seq<char>> {
    let ops = ops_of(lines(text));
    match ends_of(ops) {
        Err(m) => Err(m),
        Ok(e) => if e.c == 0 || e.c % 8 != 0 || e.h == 0 || e.w == 0 {
            Err("no valid INPUT op"@)
        } else if e.embed_dim == 0 {
            Err("no HEAD op"@)
        } else {
            Ok(PlanView { ops, ends: e })
        },
    }
}

/// How many of `ops` run on the device.
pub open spec fn convs_of(ops: Seq<OpView>) -> nat
    decreases ops.len(),
{
    if ops.len() == 0 {
        0
    } else {
        convs_of(ops.drop_last()) + (if ops.last().name == "CONV"@ {
            1nat
        } else {
            0
        })
    }
}

/// A recorded plan.
#[derive(Debug)]
pub struct Plan {
    ops: Vec<Op>,
    in_c: u64,
    in_h: u64,
    in_w: u64,
    embed_dim: u64,
}

impl View for Plan {
    type V = PlanView;

    closed spec fn view(&self) -> PlanView {
        PlanView {
            ops: op_views(self.ops@),
            ends: Ends { c: self.in_c, h: self.in_h, w: self.in_w, embed_dim: self.embed_dim },
        }
    }
}

impl PlanView {
    /// The stem's input has elements, in whole groups of eight channels, and
    /// the head has columns.
    pub open spec fn wf(self) -> bool {
        self.ends.c > 0 && self.ends.c % 8 == 0 && self.ends.h > 0 && self.ends.w > 0 && self.ends.embed_dim > 0
    }
}

impl Plan {
    #[verifier::type_invariant]
    spec fn wf(&self) -> bool {
        self@.wf()
    }
}

/// A plan that loads has an input of whole groups of channels and a head.
pub proof fn a_plan_that_loads_is_whole(text: Seq<char>)
    requires
        plan_of(text) is Ok,
    ensures
        plan_of(text)->Ok_0.wf(),
{
}

proof fn ends_error(ops: Seq<OpView>, n: int)
    requires
        0 <= n <= ops.len(),
        ends_of(ops.take(n)) is Err,
    ensures
        ends_of(ops) == ends_of(ops.take(n)),
    decreases ops.len() - n,
{
    if n < ops.len() {
        assert(ops.take(n + 1).drop_last() =~= ops.take(n));
        ends_error(ops, n + 1);
    } else {
        assert(ops.take(n) =~= ops);
    }
}

impl Plan {
    /// Reads a plan's text.
    pub fn load(text: &str) -> (r: Result<Plan, Error>)
        ensures
            shows(r, plan_of(text@)),
    {
        let ops = read_ops(text);
        let ghost all = op_views(ops@);
        let mut in_c: u64 = 0;
        let mut in_h: u64 = 0;
        let mut in_w: u64 = 0;
        let mut embed_dim: u64 = 0;
        proof {
            assert(all.take(0) =~= Seq::empty());
        }
        let mut i: usize = 0;
        while i < ops.len()
            invariant
                i <= ops.len(),
                all == op_views(ops@),
                all == ops_of(lines(text@)),
                ends_of(all.take(i as int)) == Ok::<Ends, Seq<char>>(Ends { c: in_c, h: in_h, w: in_w, embed_dim }),
            decreases ops.len() - i,
        {
            let o = &ops[i];
            proof {
                assert(all.take(i + 1).drop_last() =~= all.take(i as int));
                assert(all.take(i + 1).last() == o@);
                if ends_of(all.take(i + 1)) is Err {
                    ends_error(all, i + 1);
                }
            }
            if same(o.name.as_str(), "INPUT") {
                in_c = o.size("c")?;
                in_h = o.size("h")?;
                in_w = o.size("w")?;
            } else if same(o.name.as_str(), "HEAD") {
                embed_dim = o.size("n")?;
            }
            i = i + 1;
        }
        proof {
            assert(all.take(all.len() as int) =~= all);
        }
        if in_c == 0 || in_c % 8 != 0 || in_h == 0 || in_w == 0 {
            return Err(Error::Plan("no valid INPUT op".to_string()));
        }
        if embed_dim == 0 {
            return Err(Error::Plan("no HEAD op".to_string()));
        }
        Ok(Plan { ops, in_c, in_h, in_w, embed_dim })
    }

    /// Stem input dims as recorded: channels (padded to a multiple of
    /// eight), height, width.
    pub fn input_dims(&self) -> (r: (u64, u64, u64))
        ensures
            r == (self@.ends.c, self@.ends.h, self@.ends.w),
    {
        (self.in_c, self.in_h, self.in_w)
    }

    /// Output embedding dimension.
    pub fn embed_dim(&self) -> (r: u64)
        ensures
            r == self@.ends.embed_dim,
    {
        self.embed_dim
    }

    /// Device dispatches per forward (a fixed property of the plan).
    pub fn num_conv_dispatches(&self) -> (r: usize)
        ensures
            r == convs_of(self@.ops),
    {
        let ghost all = self@.ops;
        let mut n: usize = 0;
        let mut i: usize = 0;
        proof {
            assert(all.take(0) =~= Seq::empty());
        }
        while i < self.ops.len()
            invariant
                i <= self.ops.len(),
                all == op_views(self.ops@),
                n <= i,
                n == convs_of(all.take(i as int)),
            decreases self.ops.len() - i,
        {
            proof {
                assert(all.take(i + 1).drop_last() =~= all.take(i as int));
                assert(all.take(i + 1).last() == self.ops@[i as int]@);
            }
            if same(self.ops[i].name.as_str(), "CONV") {
                n = n + 1;
            }
            i = i + 1;
        }
        proof {
            assert(all.take(all.len() as int) =~= all);
        }
        n
    }
}

// ----------------------------------------------------------------------------
// The stem's input
// ----------------------------------------------------------------------------

/// A tiled buffer of these sizes can be held.
pub open spec fn tile_fits(c: int, h: int, w: int) -> bool {
    c <= usize::MAX && h <= usize::MAX && w <= usize::MAX && c * h * w <= usize::MAX
}

/// The length of a tiled buffer, when it can be held.
fn tile_size(c: u64, h: u64, w: u64) -> (r: Option<usize>)
    ensures
        match r {
            Some(n) => tile_fits(c as int, h as int, w as int) && n == tile_len(h as int, c as int / 8, w as int),
            None => !tile_fits(c as int, h as int, w as int),
        },
{
    if c <= usize::MAX as u64 && h <= usize::MAX as u64 && w <= usize::MAX as u64 {
        let all: usize = match mul3(c as usize, h as usize, w as usize) {
            Some(n) => n,
            None => {
                return None;
            },
        };
        let whole: usize = c as usize / 8 * 8;
        proof {
            let (ci, hi, wi, k) = (c as int, h as int, w as int, whole as int);
            assert(0 <= k * hi * wi <= ci * hi * wi) by (nonlinear_arith)
                requires
                    0 <= k <= ci,
                    0 <= hi,
                    0 <= wi,
            ;
            tile_len_is(k, hi, wi);
            assert(k / 8 == ci / 8);
            assert(all == ci * hi * wi);
        }
        mul3(whole, h as usize, w as usize)
    } else {
        None
    }
}

/// The fault of an operation whose sizes do not go together.
pub open spec fn no_fit(op: Seq<char>) -> Seq<char> {
    op + ": sizes do not fit"@
}

fn misfit(op: &str) -> (r: Error)
    ensures
        plan_error(r, no_fit(op@)),
{
    Error::Plan(cat2(op, ": sizes do not fit"))
}

/// What tiling the channel-major image `chw` for the stem comes to: the
/// tiled buffer, channels beyond the image's zero; or why it has not whole
/// channels, at least one, of the stem's.
pub open spec fn tiled_to(e: Ends, chw: Seq<u32>, r: Result<Seq<u16>, Error>) -> bool {
    let plane = (e.h * e.w) as nat;
    if chw.len() == 0 || chw.len() % plane != 0 {
        r matches Err(f) && input_error(
            f,
            "length "@ + decimal(chw.len()) + " is not a multiple of h*w = "@ + decimal(plane),
        )
    } else if chw.len() / plane > e.c {
        r matches Err(f) && input_error(
            f,
            decimal(chw.len() / plane) + " channels, but the plan's stem takes at most "@ + decimal(e.c as nat),
        )
    } else if !tile_fits(e.c as int, e.h as int, e.w as int) {
        r matches Err(f) && plan_error(f, no_fit("INPUT"@))
    } else {
        r == Ok::<Seq<u16>, Error>(tiled_image(chw, e.c as int, e.h as int, e.w as int))
    }
}

pub open spec fn contents<T>(r: Result<Vec<T>, Error>) -> Result<Seq<T>, Error> {
    match r {
        Ok(v) => Ok(v@),
        Err(e) => Err(e),
    }
}

impl Plan {
    /// Tiles a caller's image for the stem, rounding to bfloat16.
    pub fn tile_input(&self, chw: &[u32]) -> (r: Result<Vec<u16>, Error>)
        ensures
            tiled_to(self@.ends, chw@, contents(r)),
    {
        proof {
            use_type_invariant(self);
            assert(0 < self.in_h * self.in_w <= 0xffff_ffff_ffff_ffff * 0xffff_ffff_ffff_ffff) by (nonlinear_arith)
                requires
                    0 < self.in_h <= 0xffff_ffff_ffff_ffff,
                    0 < self.in_w <= 0xffff_ffff_ffff_ffff,
            ;
        }
        let plane: u128 = self.in_h as u128 * self.in_w as u128;
        let n: u128 = chw.len() as u128;
        if n == 0 || n % plane != 0 {
            let a = decimal_of(n);
            let b = decimal_of(plane);
            return Err(Error::Input(cat4("length ", a.as_str(), " is not a multiple of h*w = ", b.as_str())));
        }
        let ch: u128 = n / plane;
        if ch > self.in_c as u128 {
            let a = decimal_of(ch);
            let b = decimal_of(self.in_c as u128);
            return Err(
                Error::Input(cat3(a.as_str(), " channels, but the plan's stem takes at most ", b.as_str())),
            );
        }
        if tile_size(self.in_c, self.in_h, self.in_w).is_none() {
            return Err(misfit("INPUT"));
        }
        proof {
            let (c, h, w) = (self.in_c as int, self.in_h as int, self.in_w as int);
            vstd::arithmetic::div_mod::lemma_fundamental_div_mod(n as int, plane as int);
            assert(n <= c * h * w) by (nonlinear_arith)
                requires
                    n == plane * ch + 0,
                    plane == h * w,
                    0 <= ch <= c,
                    plane >= 0,
            ;
        }
        let b = tile_image(chw, self.in_c as usize, self.in_h as usize, self.in_w as usize);
        Ok(b.v)
    }
}

// ----------------------------------------------------------------------------
// What forwards keep
// ----------------------------------------------------------------------------

/// What has been read of the bundle's files, by name: each is read once, in
/// whatever form it was asked for first.
#[derive(Debug)]
pub struct Cache {
    /// Files of bfloat16.
    halves: Dict<Vec<u16>>,
    /// Files in single precision: a head's weights and biases.
    reals: Dict<Vec<u32>>,
}

pub struct CacheView {
    pub halves: Map<Seq<char>, Seq<u16>>,
    pub reals: Map<Seq<char>, Seq<u32>>,
}

impl View for Cache {
    type V = CacheView;

    closed spec fn view(&self) -> CacheView {
        CacheView { halves: self.halves@, reals: self.reals@ }
    }
}

impl CacheView {
    pub open spec fn with_half(self, name: Seq<char>, v: Seq<u16>) -> CacheView {
        CacheView { halves: self.halves.insert(name, v), ..self }
    }

    pub open spec fn with_real(self, name: Seq<char>, v: Seq<u32>) -> CacheView {
        CacheView { reals: self.reals.insert(name, v), ..self }
    }
}

impl Cache {
    pub fn new() -> (r: Cache)
        ensures
            r@ == (CacheView { halves: Map::empty(), reals: Map::empty() }),
    {
        Cache { halves: Dict::new(), reals: Dict::new() }
    }
}

// ----------------------------------------------------------------------------
// What a forward asks of its host
// ----------------------------------------------------------------------------

/// The device and the files of the bundle.
pub struct Host<E, D, B, F> {
    /// Makes a kernel resident: its key, xclbin, instructions and name.
    pub ensure: E,
    /// Runs a resident kernel: its key, input, weights, and the length of
    /// the answer.
    pub run: D,
    /// A file of bfloat16.
    pub blob: B,
    /// A file of single precision, as bits.
    pub reals: F,
}

impl<
    E: Fn(&String, &String, &String, &String) -> Result<(), Error>,
    D: Fn(&String, &Vec<u16>, &Vec<u16>, usize) -> Result<Vec<u16>, Error>,
    B: Fn(&String) -> Result<Vec<u16>, Error>,
    F: Fn(&String) -> Result<Vec<u32>, Error>,
> Host<E, D, B, F> {
    /// It takes every request.
    pub open spec fn total(&self) -> bool {
        &&& forall|a: &String, b: &String, c: &String, d: &String| call_requires(self.ensure, (a, b, c, d))
        &&& forall|k: &String, i: &Vec<u16>, w: &Vec<u16>, n: usize| call_requires(self.run, (k, i, w, n))
        &&& forall|p: &String| call_requires(self.blob, (p,))
        &&& forall|p: &String| call_requires(self.reals, (p,))
    }

    /// `r` is an answer to making a kernel resident.
    pub open spec fn made(&self, key: Seq<char>, xclbin: Seq<char>, insts: Seq<char>, kernel: Seq<char>, r: Result<(), Error>) -> bool {
        exists|a: &String, b: &String, c: &String, d: &String|
            a@ == key && b@ == xclbin && c@ == insts && d@ == kernel && #[trigger] call_ensures(
                self.ensure,
                (a, b, c, d),
                r,
            )
    }

    /// `r` is an answer to running a kernel.
    pub open spec fn ran(&self, key: Seq<char>, input: Seq<u16>, weights: Seq<u16>, n: int, r: Result<Seq<u16>, Error>) -> bool {
        exists|k: &String, i: &Vec<u16>, w: &Vec<u16>, m: usize, o: Result<Vec<u16>, Error>|
            k@ == key && i@ == input && w@ == weights && m == n && contents(o) == r && #[trigger] call_ensures(
                self.run,
                (k, i, w, m),
                o,
            )
    }

    /// `r` is what a file of bfloat16 holds.
    pub open spec fn holds16(&self, path: Seq<char>, r: Result<Seq<u16>, Error>) -> bool {
        exists|p: &String, o: Result<Vec<u16>, Error>|
            p@ == path && contents(o) == r && #[trigger] call_ensures(self.blob, (p,), o)
    }

    /// `r` is what a file of single precision holds.
    pub open spec fn holds32(&self, path: Seq<char>, r: Result<Seq<u32>, Error>) -> bool {
        exists|p: &String, o: Result<Vec<u32>, Error>|
            p@ == path && contents(o) == r && #[trigger] call_ensures(self.reals, (p,), o)
    }

    /// `v` is file `name` of `dir` as bfloat16, read unless the cache `c0`
    /// holds it; `c1` is the cache afterwards.
    pub open spec fn fetches16(
        &self,
        dir: Seq<char>,
        name: Seq<char>,
        c0: CacheView,
        v: Result<Seq<u16>, Error>,
        c1: CacheView,
    ) -> bool {
        if c0.halves.contains_key(name) {
            v == Ok::<Seq<u16>, Error>(c0.halves[name]) && c1 == c0
        } else {
            self.holds16(joined(dir, name), v) && c1 == match v {
                Ok(w) => c0.with_half(name, w),
                Err(_) => c0,
            }
        }
    }

    /// The same in single precision: `found` says what reading comes to.
    pub open spec fn fetches32(
        &self,
        name: Seq<char>,
        found: spec_fn(Result<Seq<u32>, Error>) -> bool,
        c0: CacheView,
        v: Result<Seq<u32>, Error>,
        c1: CacheView,
    ) -> bool {
        if c0.reals.contains_key(name) {
            v == Ok::<Seq<u32>, Error>(c0.reals[name]) && c1 == c0
        } else {
            found(v) && c1 == match v {
                Ok(w) => c0.with_real(name, w),
                Err(_) => c0,
            }
        }
    }

    /// Reading a file of bfloat16 and widening it.
    pub open spec fn widened_file(&self, path: Seq<char>) -> spec_fn(Result<Seq<u32>, Error>) -> bool {
        |v: Result<Seq<u32>, Error>|
            exists|raw: Result<Seq<u16>, Error>| #[trigger]
                self.holds16(path, raw) && v == match raw {
                    Ok(w) => Ok(widened(w)),
                    Err(e) => Err(e),
                }
    }

    /// Reading a file of single precision.
    pub open spec fn real_file(&self, path: Seq<char>) -> spec_fn(Result<Seq<u32>, Error>) -> bool {
        |v: Result<Seq<u32>, Error>| self.holds32(path, v)
    }

    /// `z` comes of fetching a file of bfloat16: its error, or what `rest`
    /// makes of its contents and the cache.
    pub open spec fn with16(
        &self,
        dir: Seq<char>,
        name: Seq<char>,
        c0: CacheView,
        z: After,
        rest: spec_fn(Seq<u16>, CacheView) -> bool,
    ) -> bool {
        ||| exists|e: Error, c: CacheView| #[trigger]
            self.fetches16(dir, name, c0, Err(e), c) && z == (After { r: Err(e), cache: c })
        ||| exists|v: Seq<u16>, c: CacheView| #[trigger] self.fetches16(dir, name, c0, Ok(v), c) && rest(v, c)
    }

    pub open spec fn with32(
        &self,
        name: Seq<char>,
        found: spec_fn(Result<Seq<u32>, Error>) -> bool,
        c0: CacheView,
        z: After,
        rest: spec_fn(Seq<u32>, CacheView) -> bool,
    ) -> bool {
        ||| exists|e: Error, c: CacheView| #[trigger]
            self.fetches32(name, found, c0, Err(e), c) && z == (After { r: Err(e), cache: c })
        ||| exists|v: Seq<u32>, c: CacheView| #[trigger] self.fetches32(name, found, c0, Ok(v), c) && rest(v, c)
    }

    /// `z` comes of running a kernel: its error, or what `rest` makes of
    /// the answer.
    pub open spec fn with_run(
        &self,
        key: Seq<char>,
        input: Seq<u16>,
        weights: Seq<u16>,
        n: int,
        c0: CacheView,
        z: After,
        rest: spec_fn(Seq<u16>) -> bool,
    ) -> bool {
        ||| exists|e: Error| #[trigger]
            self.ran(key, input, weights, n, Err(e)) && z == (After { r: Err(e), cache: c0 })
        ||| exists|v: Seq<u16>| #[trigger] self.ran(key, input, weights, n, Ok(v)) && rest(v)
    }

    fn read16(&self, path: &String) -> (r: Result<Vec<u16>, Error>)
        requires
            self.total(),
        ensures
            self.holds16(path@, contents(r)),
    {
        let r = (self.blob)(path);
        assert(self.holds16(path@, contents(r)));
        r
    }

    fn read32(&self, path: &String) -> (r: Result<Vec<u32>, Error>)
        requires
            self.total(),
        ensures
            self.holds32(path@, contents(r)),
    {
        let r = (self.reals)(path);
        assert(self.holds32(path@, contents(r)));
        r
    }

    fn fetch16(&self, cache: &mut Cache, dir: &str, name: String) -> (r: Result<Vec<u16>, Error>)
        requires
            self.total(),
        ensures
            self.fetches16(dir@, name@, old(cache)@, contents(r), final(cache)@),
    {
        match cache.halves.get(name.as_str()) {
            Some(v) => {
                return Ok(copy16(v));
            },
            None => {},
        }
        let path = join(dir, name.as_str());
        let v = self.read16(&path)?;
        let r = copy16(&v);
        cache.halves.insert(name, v);
        Ok(r)
    }

    /// The weights of a head: bfloat16, widened once.
    fn fetch_weights(&self, cache: &mut Cache, dir: &str, name: String) -> (r: Result<Vec<u32>, Error>)
        requires
            self.total(),
        ensures
            self.fetches32(
                name@,
                self.widened_file(joined(dir@, name@)),
                old(cache)@,
                contents(r),
                final(cache)@,
            ),
    {
        match cache.reals.get(name.as_str()) {
            Some(v) => {
                return Ok(copy32(v));
            },
            None => {},
        }
        let path = join(dir, name.as_str());
        match self.read16(&path) {
            Err(e) => {
                proof {
                    let raw: Result<Seq<u16>, Error> = Err(e);
                    assert(self.holds16(path@, raw));
                    assert(self.widened_file(path@)(Err(e)));
                }
                Err(e)
            },
            Ok(raw) => {
                let v = widen(raw.as_slice());
                proof {
                    assert(self.holds16(path@, Ok(raw@)));
                    assert(self.widened_file(path@)(Ok(v@)));
                }
                let r = copy32(&v);
                cache.reals.insert(name, v);
                Ok(r)
            },
        }
    }

    /// The biases of a head.
    fn fetch_biases(&self, cache: &mut Cache, dir: &str, name: String) -> (r: Result<Vec<u32>, Error>)
        requires
            self.total(),
        ensures
            self.fetches32(name@, self.real_file(joined(dir@, name@)), old(cache)@, contents(r), final(cache)@),
    {
        match cache.reals.get(name.as_str()) {
            Some(v) => {
                return Ok(copy32(v));
            },
            None => {},
        }
        let path = join(dir, name.as_str());
        match self.read32(&path) {
            Err(e) => Err(e),
            Ok(v) => {
                let r = copy32(&v);
                cache.reals.insert(name, v);
                Ok(r)
            },
        }
    }
}

// ----------------------------------------------------------------------------
// What each operation comes to
// ----------------------------------------------------------------------------

/// What an operation leaves: the next state or the error, and the cache.
pub struct After {
    pub r: Result<RunView, Error>,
    pub cache: CacheView,
}

/// `z` is a plan error with the message `m`; the cache stays `c`.
pub open spec fn stops(z: After, c: CacheView, m: Seq<char>) -> bool {
    z.cache == c && (z.r matches Err(e) && plan_error(e, m))
}

/// `z` is state `x` with buffer `id` defined anew, as `is` says; the cache
/// stays `c`.
pub open spec fn makes(z: After, c: CacheView, x: RunView, id: u32, is: spec_fn(Buf) -> bool) -> bool {
    z.cache == c && (z.r matches Ok(y) && defines(x, y, id) && is(y.bufs[id]))
}

pub open spec fn undefined(op: Seq<char>, id: u32) -> Seq<char> {
    op + ": buffer "@ + decimal(id as nat) + " undefined"@
}

/// The input becomes the buffer the operation names, whatever its length.
pub open spec fn input_end(o: OpView, dims: (u64, u64, u64), t: Seq<u16>, x: RunView, c: CacheView, z: After) -> bool {
    match o.id("buf"@) {
        Err(m) => stops(z, c, m),
        Ok(id) => makes(
            z,
            c,
            x,
            id,
            |b: Buf| (b.c, b.h, b.w) == (dims.0 as usize, dims.1 as usize, dims.2 as usize) && b.v@ == t,
        ),
    }
}

/// The sizes an operation names can be counted.
pub open spec fn countable(d: (u64, u64, u64)) -> bool {
    d.0 <= usize::MAX && d.1 <= usize::MAX && d.2 <= usize::MAX
}

/// `INPUT`: the caller's tiled buffer, or the recorded file.
pub open spec fn input_to<
    E: Fn(&String, &String, &String, &String) -> Result<(), Error>,
    D: Fn(&String, &Vec<u16>, &Vec<u16>, usize) -> Result<Vec<u16>, Error>,
    B: Fn(&String) -> Result<Vec<u16>, Error>,
    F: Fn(&String) -> Result<Vec<u32>, Error>,
>(
    host: &Host<E, D, B, F>,
    dir: Seq<char>,
    o: OpView,
    given: Option<Seq<u16>>,
    x: RunView,
    c: CacheView,
    z: After,
) -> bool {
    match dims_of(o) {
        Err(m) => stops(z, c, m),
        Ok(d) => if !countable(d) {
            stops(z, c, no_fit("INPUT"@))
        } else {
            match given {
                Some(t) => {
                    let n = tile_len(d.1 as int, d.0 as int / 8, d.2 as int);
                    if n > usize::MAX {
                        stops(z, c, no_fit("INPUT"@))
                    } else if t.len() != n {
                        z.cache == c && (z.r matches Err(e) && input_error(
                            e,
                            "tiled input length "@ + decimal(t.len()) + " != "@ + decimal(n as nat),
                        ))
                    } else {
                        input_end(o, d, t, x, c, z)
                    }
                },
                None => match o.gets("file"@) {
                    Err(m) => stops(z, c, m),
                    Ok(f) => host.with16(
                        dir,
                        f,
                        c,
                        z,
                        |v: Seq<u16>, after: CacheView| input_end(o, d, v, x, after, z),
                    ),
                },
            }
        },
    }
}

/// The keys a convolution reads before it touches the device.
pub struct ConvKeys {
    pub input: u32,
    pub out: u32,
    pub c0: u64,
    pub icg: u64,
    pub oc: u64,
    pub oh: u64,
    pub ow: u64,
    pub owp: u64,
    pub wp: u64,
    pub xclbin: Seq<char>,
    pub insts: Seq<char>,
    pub kernel: Seq<char>,
}

pub open spec fn conv_keys(o: OpView) -> Result<ConvKeys, Seq<char>> {
    match (o.id("in"@), o.id("out"@), o.size("c0"@), o.size("icg"@), o.size("oc"@), o.size("oh"@)) {
        (Err(m), _, _, _, _, _) => Err(m),
        (_, Err(m), _, _, _, _) => Err(m),
        (_, _, Err(m), _, _, _) => Err(m),
        (_, _, _, Err(m), _, _) => Err(m),
        (_, _, _, _, Err(m), _) => Err(m),
        (_, _, _, _, _, Err(m)) => Err(m),
        (Ok(input), Ok(out), Ok(c0), Ok(icg), Ok(oc), Ok(oh)) => match (
            o.size("ow"@),
            o.size("owp"@),
            o.size("wp"@),
            o.gets("xclbin"@),
            o.gets("insts"@),
            o.gets("kernel"@),
        ) {
            (Err(m), _, _, _, _, _) => Err(m),
            (_, Err(m), _, _, _, _) => Err(m),
            (_, _, Err(m), _, _, _) => Err(m),
            (_, _, _, Err(m), _, _) => Err(m),
            (_, _, _, _, Err(m), _) => Err(m),
            (_, _, _, _, _, Err(m)) => Err(m),
            (Ok(ow), Ok(owp), Ok(wp), Ok(xclbin), Ok(insts), Ok(kernel)) => Ok(
                ConvKeys { input, out, c0, icg, oc, oh, ow, owp, wp, xclbin, insts, kernel },
            ),
        },
    }
}

/// The sizes of a convolution can be counted.
pub open spec fn conv_countable(k: ConvKeys) -> bool {
    k.wp <= usize::MAX && k.icg / 8 <= usize::MAX && k.oc <= usize::MAX && k.oh <= usize::MAX && k.ow <= usize::MAX
        && k.owp <= usize::MAX
}

pub open spec fn sink(k: ConvKeys, first: bool, last: bool) -> Sink {
    Sink { out: k.out, oc: k.oc as usize, oh: k.oh as usize, ow: k.ow as usize, owp: k.owp as usize, first, last }
}

/// The device's answer `part` takes state `x` to `y`: it is added up, and
/// after the last dispatch the sums become the output buffer.
pub open spec fn absorbed<A: Fn(u32, u32) -> u32, M: Fn(u32, u32) -> u32>(
    ops: &Ops<A, M>,
    s: Sink,
    part: Seq<u16>,
    x: RunView,
    y: RunView,
) -> bool {
    &&& y.accs.contains_key(s.out)
    &&& ops.accumulated(acc_before(x, s), part, y.accs[s.out])
    &&& y.accs == x.accs.insert(s.out, y.accs[s.out])
    &&& y.embed == x.embed
    &&& if s.last {
        let b = y.bufs[s.out];
        &&& y.bufs == x.bufs.insert(s.out, b)
        &&& (b.c, b.h, b.w) == (s.oc, s.oh, s.ow)
        &&& b.v@ == cropped(y.accs[s.out], s.oc as int / 8, s.oh as int, s.owp as int, s.ow as int)
    } else {
        y.bufs == x.bufs
    }
}

/// What the answer comes to.
pub open spec fn conv_end<A: Fn(u32, u32) -> u32, M: Fn(u32, u32) -> u32>(
    ops: &Ops<A, M>,
    o: OpView,
    k: ConvKeys,
    part: Seq<u16>,
    x: RunView,
    c: CacheView,
    z: After,
) -> bool {
    match (o.geti("first"@), o.geti("last"@)) {
        (Err(m), _) => stops(z, c, m),
        (_, Err(m)) => stops(z, c, m),
        (Ok(first), Ok(last)) => {
            let s = sink(k, first == 1, last == 1);
            if s.last && !crop_fits(
                acc_before(x, s).len() as int,
                s.oc as int,
                s.oh as int,
                s.owp as int,
                s.ow as int,
            ) {
                stops(z, c, no_fit("CONV"@))
            } else {
                z.cache == c && (z.r matches Ok(y) && absorbed(ops, s, part, x, y))
            }
        },
    }
}

/// The weights are there: the device runs, if its answer can be counted.
pub open spec fn conv_run<
    A: Fn(u32, u32) -> u32,
    M: Fn(u32, u32) -> u32,
    E: Fn(&String, &String, &String, &String) -> Result<(), Error>,
    D: Fn(&String, &Vec<u16>, &Vec<u16>, usize) -> Result<Vec<u16>, Error>,
    B: Fn(&String) -> Result<Vec<u16>, Error>,
    F: Fn(&String) -> Result<Vec<u32>, Error>,
>(
    ops: &Ops<A, M>,
    host: &Host<E, D, B, F>,
    o: OpView,
    k: ConvKeys,
    w: Seq<u16>,
    x: RunView,
    c: CacheView,
    z: After,
) -> bool {
    if k.oc * k.oh * k.owp > usize::MAX {
        stops(z, c, no_fit("CONV"@))
    } else {
        host.with_run(
            k.xclbin,
            sliced(&x.bufs[k.input], k.c0 as int, k.icg as int / 8, k.wp as int),
            w,
            k.oc * k.oh * k.owp,
            c,
            z,
            |part: Seq<u16>| conv_end(ops, o, k, part, x, c, z),
        )
    }
}

/// A convolution whose kernel is resident.
pub open spec fn conv_ready<
    A: Fn(u32, u32) -> u32,
    M: Fn(u32, u32) -> u32,
    E: Fn(&String, &String, &String, &String) -> Result<(), Error>,
    D: Fn(&String, &Vec<u16>, &Vec<u16>, usize) -> Result<Vec<u16>, Error>,
    B: Fn(&String) -> Result<Vec<u16>, Error>,
    F: Fn(&String) -> Result<Vec<u32>, Error>,
>(
    ops: &Ops<A, M>,
    host: &Host<E, D, B, F>,
    dir: Seq<char>,
    o: OpView,
    k: ConvKeys,
    x: RunView,
    c: CacheView,
    z: After,
) -> bool {
    if !x.bufs.contains_key(k.input) {
        stops(z, c, undefined("CONV"@, k.input))
    } else if !conv_countable(k) || !slice_fits(x.bufs[k.input], k.c0 as int, k.icg as int / 8, k.wp as int) {
        stops(z, c, no_fit("CONV"@))
    } else {
        match o.gets("wt"@) {
            Err(m) => stops(z, c, m),
            Ok(wt) => host.with16(
                dir,
                wt,
                c,
                z,
                |w: Seq<u16>, after: CacheView| conv_run(ops, host, o, k, w, x, after, z),
            ),
        }
    }
}

/// `CONV`: one device dispatch over a slice of the input's channels.
pub open spec fn conv_op_to<
    A: Fn(u32, u32) -> u32,
    M: Fn(u32, u32) -> u32,
    E: Fn(&String, &String, &String, &String) -> Result<(), Error>,
    D: Fn(&String, &Vec<u16>, &Vec<u16>, usize) -> Result<Vec<u16>, Error>,
    B: Fn(&String) -> Result<Vec<u16>, Error>,
    F: Fn(&String) -> Result<Vec<u32>, Error>,
>(
    ops: &Ops<A, M>,
    host: &Host<E, D, B, F>,
    dir: Seq<char>,
    o: OpView,
    x: RunView,
    c: CacheView,
    z: After,
) -> bool {
    match conv_keys(o) {
        Err(m) => stops(z, c, m),
        Ok(k) => {
            ||| exists|e: Error| #[trigger]
                host.made(k.xclbin, joined(dir, k.xclbin), joined(dir, k.insts), k.kernel, Err(e)) && z == (After {
                    r: Err(e),
                    cache: c,
                })
            ||| host.made(k.xclbin, joined(dir, k.xclbin), joined(dir, k.insts), k.kernel, Ok(())) && conv_ready(
                ops,
                host,
                dir,
                o,
                k,
                x,
                c,
                z,
            )
        },
    }
}

/// `AFFINE`: a per-channel scale and shift.
pub open spec fn affine_to<
    A: Fn(u32, u32) -> u32,
    M: Fn(u32, u32) -> u32,
    E: Fn(&String, &String, &String, &String) -> Result<(), Error>,
    D: Fn(&String, &Vec<u16>, &Vec<u16>, usize) -> Result<Vec<u16>, Error>,
    B: Fn(&String) -> Result<Vec<u16>, Error>,
    F: Fn(&String) -> Result<Vec<u32>, Error>,
>(
    ops: &Ops<A, M>,
    host: &Host<E, D, B, F>,
    dir: Seq<char>,
    o: OpView,
    x: RunView,
    c: CacheView,
    z: After,
) -> bool {
    match (o.id("in"@), o.id("out"@), o.gets("scale"@), o.gets("shift"@)) {
        (Err(m), _, _, _) => stops(z, c, m),
        (_, Err(m), _, _) => stops(z, c, m),
        (_, _, Err(m), _) => stops(z, c, m),
        (_, _, _, Err(m)) => stops(z, c, m),
        (Ok(from), Ok(out), Ok(scale), Ok(shift)) => host.with16(
            dir,
            scale,
            c,
            z,
            |a: Seq<u16>, c1: CacheView|
                host.with16(dir, shift, c1, z, |b: Seq<u16>, c2: CacheView| affine_end(ops, from, out, a, b, x, c2, z)),
        ),
    }
}

pub open spec fn affine_end<A: Fn(u32, u32) -> u32, M: Fn(u32, u32) -> u32>(
    ops: &Ops<A, M>,
    from: u32,
    out: u32,
    scale: Seq<u16>,
    shift: Seq<u16>,
    x: RunView,
    c: CacheView,
    z: After,
) -> bool {
    if !x.bufs.contains_key(from) {
        stops(z, c, undefined("AFFINE"@, from))
    } else if !walk_fits(x.bufs[from], scale.len() as int) || !walk_fits(x.bufs[from], shift.len() as int) {
        stops(z, c, no_fit("AFFINE"@))
    } else {
        let src = x.bufs[from];
        makes(
            z,
            c,
            x,
            out,
            |b: Buf|
                b.same_shape(&src) && walks_to(src, zeros16(src.v@.len()), affine_step(ops, scale, shift), false, b.v@),
        )
    }
}

/// `PRELU_BIAS`: a per-channel bias and PReLU, in place.
pub open spec fn prelu_to<
    A: Fn(u32, u32) -> u32,
    M: Fn(u32, u32) -> u32,
    E: Fn(&String, &String, &String, &String) -> Result<(), Error>,
    D: Fn(&String, &Vec<u16>, &Vec<u16>, usize) -> Result<Vec<u16>, Error>,
    B: Fn(&String) -> Result<Vec<u16>, Error>,
    F: Fn(&String) -> Result<Vec<u32>, Error>,
>(
    ops: &Ops<A, M>,
    host: &Host<E, D, B, F>,
    dir: Seq<char>,
    o: OpView,
    x: RunView,
    c: CacheView,
    z: After,
) -> bool {
    match (o.id("buf"@), o.gets("alpha"@)) {
        (Err(m), _) => stops(z, c, m),
        (_, Err(m)) => stops(z, c, m),
        (Ok(id), Ok(alpha)) => host.with16(
            dir,
            alpha,
            c,
            z,
            |a: Seq<u16>, c1: CacheView|
                match o.gets("bias"@) {
                    Err(m) => stops(z, c1, m),
                    Ok(bias) => host.with16(
                        dir,
                        bias,
                        c1,
                        z,
                        |b: Seq<u16>, c2: CacheView| prelu_end(ops, id, a, b, x, c2, z),
                    ),
                },
        ),
    }
}

pub open spec fn prelu_end<A: Fn(u32, u32) -> u32, M: Fn(u32, u32) -> u32>(
    ops: &Ops<A, M>,
    id: u32,
    alpha: Seq<u16>,
    bias: Seq<u16>,
    x: RunView,
    c: CacheView,
    z: After,
) -> bool {
    if !x.bufs.contains_key(id) {
        stops(z, c, undefined("PRELU_BIAS"@, id))
    } else if !walk_fits(x.bufs[id], alpha.len() as int) || !walk_fits(x.bufs[id], bias.len() as int) {
        stops(z, c, no_fit("PRELU_BIAS"@))
    } else {
        let src = x.bufs[id];
        makes(
            z,
            c,
            x,
            id,
            |b: Buf| b.same_shape(&src) && walks_to(src, src.v@, prelu_step(ops, alpha, bias), true, b.v@),
        )
    }
}

/// `BIAS`: a per-channel bias, in place.
pub open spec fn bias_to<
    A: Fn(u32, u32) -> u32,
    M: Fn(u32, u32) -> u32,
    E: Fn(&String, &String, &String, &String) -> Result<(), Error>,
    D: Fn(&String, &Vec<u16>, &Vec<u16>, usize) -> Result<Vec<u16>, Error>,
    B: Fn(&String) -> Result<Vec<u16>, Error>,
    F: Fn(&String) -> Result<Vec<u32>, Error>,
>(
    ops: &Ops<A, M>,
    host: &Host<E, D, B, F>,
    dir: Seq<char>,
    o: OpView,
    x: RunView,
    c: CacheView,
    z: After,
) -> bool {
    match (o.id("buf"@), o.gets("bias"@)) {
        (Err(m), _) => stops(z, c, m),
        (_, Err(m)) => stops(z, c, m),
        (Ok(id), Ok(bias)) => host.with16(
            dir,
            bias,
            c,
            z,
            |b: Seq<u16>, c1: CacheView| bias_end(ops, id, b, x, c1, z),
        ),
    }
}

pub open spec fn bias_end<A: Fn(u32, u32) -> u32, M: Fn(u32, u32) -> u32>(
    ops: &Ops<A, M>,
    id: u32,
    bias: Seq<u16>,
    x: RunView,
    c: CacheView,
    z: After,
) -> bool {
    if !x.bufs.contains_key(id) {
        stops(z, c, undefined("BIAS"@, id))
    } else if !walk_fits(x.bufs[id], bias.len() as int) {
        stops(z, c, no_fit("BIAS"@))
    } else {
        let src = x.bufs[id];
        makes(
            z,
            c,
            x,
            id,
            |b: Buf| b.same_shape(&src) && walks_to(src, src.v@, bias_step(ops, bias), true, b.v@),
        )
    }
}

/// `SUBSAMPLE`: every `stride`th row and column.
pub open spec fn subsample_to(o: OpView, x: RunView, c: CacheView, z: After) -> bool {
    match (o.id("in"@), o.id("out"@)) {
        (Err(m), _) => stops(z, c, m),
        (_, Err(m)) => stops(z, c, m),
        (Ok(from), Ok(out)) => if !x.bufs.contains_key(from) {
            stops(z, c, undefined("SUBSAMPLE"@, from))
        } else {
            match o.size("stride"@) {
                Err(m) => stops(z, c, m),
                Ok(stride) => if stride > usize::MAX || !subsample_fits(x.bufs[from], stride as int) {
                    stops(z, c, no_fit("SUBSAMPLE"@))
                } else {
                    let src = x.bufs[from];
                    makes(
                        z,
                        c,
                        x,
                        out,
                        |b: Buf|
                            b.c == src.c && b.h == src.h as int / stride as int && b.w == src.w as int / stride as int
                                && b.v@ == subsampled(&src, stride as int),
                    )
                },
            }
        },
    }
}

/// `ADD`: the sum of two buffers as far as both go, of the first's sizes.
pub open spec fn add_to<A: Fn(u32, u32) -> u32, M: Fn(u32, u32) -> u32>(
    ops: &Ops<A, M>,
    o: OpView,
    x: RunView,
    c: CacheView,
    z: After,
) -> bool {
    match (o.id("a"@), o.id("b"@), o.id("out"@)) {
        (Err(m), _, _) => stops(z, c, m),
        (_, Err(m), _) => stops(z, c, m),
        (_, _, Err(m)) => stops(z, c, m),
        (Ok(a), Ok(b), Ok(out)) => if !x.bufs.contains_key(a) {
            stops(z, c, undefined("ADD"@, a))
        } else if !x.bufs.contains_key(b) {
            stops(z, c, undefined("ADD"@, b))
        } else {
            makes(z, c, x, out, |s: Buf| is_sum(ops, x.bufs[a], x.bufs[b], s))
        },
    }
}

/// `e` is the folded bias plus the weights (`[k][n]`) times the flattened
/// buffer, added in order; a bias longer than `n` keeps its tail.
pub open spec fn head_is<A: Fn(u32, u32) -> u32, M: Fn(u32, u32) -> u32>(
    ops: &Ops<A, M>,
    src: Buf,
    bt: Seq<u32>,
    b2: Seq<u32>,
    k: int,
    n: int,
    e: Seq<u32>,
) -> bool {
    if k == 0 {
        e == b2
    } else {
        &&& e.len() == b2.len()
        &&& forall|j: int| #![trigger e[j]] 0 <= j < n ==> ops.column(b2[j], planar(&src), bt, n, j, k, e[j])
        &&& forall|j: int| #![trigger e[j]] n <= j < e.len() ==> e[j] == b2[j]
    }
}

pub open spec fn head_fits(bt: Seq<u32>, b2: Seq<u32>, k: int, n: int) -> bool {
    k == 0 || (bt.len() >= k * n && b2.len() >= n)
}

/// `HEAD`: the embedding, in single precision. The weights and the biases
/// share one cache, so a name that was read as one is not read as the other.
pub open spec fn head_to<
    A: Fn(u32, u32) -> u32,
    M: Fn(u32, u32) -> u32,
    E: Fn(&String, &String, &String, &String) -> Result<(), Error>,
    D: Fn(&String, &Vec<u16>, &Vec<u16>, usize) -> Result<Vec<u16>, Error>,
    B: Fn(&String) -> Result<Vec<u16>, Error>,
    F: Fn(&String) -> Result<Vec<u32>, Error>,
>(
    ops: &Ops<A, M>,
    host: &Host<E, D, B, F>,
    dir: Seq<char>,
    o: OpView,
    x: RunView,
    c: CacheView,
    z: After,
) -> bool {
    match (o.id("in"@), o.size("k"@), o.size("n"@)) {
        (Err(m), _, _) => stops(z, c, m),
        (_, Err(m), _) => stops(z, c, m),
        (_, _, Err(m)) => stops(z, c, m),
        (Ok(from), Ok(k), Ok(n)) => if !x.bufs.contains_key(from) {
            stops(z, c, undefined("HEAD"@, from))
        } else {
            let src = x.bufs[from];
            let size = src.c * src.h * src.w;
            if size > usize::MAX {
                stops(z, c, no_fit("HEAD"@))
            } else if size != k {
                stops(z, c, "HEAD input K mismatch: "@ + decimal(size as nat) + " != "@ + decimal(k as nat))
            } else if !walk_fits(src, src.c as int) {
                stops(z, c, no_fit("HEAD"@))
            } else {
                match (o.gets("bT"@), o.gets("b2"@)) {
                    (Err(m), _) => stops(z, c, m),
                    (_, Err(m)) => stops(z, c, m),
                    (Ok(bt), Ok(b2)) => host.with32(
                        bt,
                        host.widened_file(joined(dir, bt)),
                        c,
                        z,
                        |w: Seq<u32>, c1: CacheView|
                            host.with32(
                                b2,
                                host.real_file(joined(dir, b2)),
                                c1,
                                z,
                                |b: Seq<u32>, c2: CacheView| head_end(ops, src, w, b, k, n, x, c2, z),
                            ),
                    ),
                }
            }
        },
    }
}

pub open spec fn head_end<A: Fn(u32, u32) -> u32, M: Fn(u32, u32) -> u32>(
    ops: &Ops<A, M>,
    src: Buf,
    bt: Seq<u32>,
    b2: Seq<u32>,
    k: u64,
    n: u64,
    x: RunView,
    c: CacheView,
    z: After,
) -> bool {
    if !head_fits(bt, b2, k as int, n as int) {
        stops(z, c, no_fit("HEAD"@))
    } else {
        z.cache == c && (z.r matches Ok(y) && y.bufs == x.bufs && y.accs == x.accs && head_is(
            ops,
            src,
            bt,
            b2,
            k as int,
            n as int,
            y.embed,
        ))
    }
}

/// What operation `o` comes to in state `x` with the cache `c`.
pub open spec fn op_to<
    A: Fn(u32, u32) -> u32,
    M: Fn(u32, u32) -> u32,
    E: Fn(&String, &String, &String, &String) -> Result<(), Error>,
    D: Fn(&String, &Vec<u16>, &Vec<u16>, usize) -> Result<Vec<u16>, Error>,
    B: Fn(&String) -> Result<Vec<u16>, Error>,
    F: Fn(&String) -> Result<Vec<u32>, Error>,
>(
    ops: &Ops<A, M>,
    host: &Host<E, D, B, F>,
    dir: Seq<char>,
    given: Option<Seq<u16>>,
    o: OpView,
    x: RunView,
    c: CacheView,
    z: After,
) -> bool {
    if o.name == "INPUT"@ {
        input_to(host, dir, o, given, x, c, z)
    } else if o.name == "CONV"@ {
        conv_op_to(ops, host, dir, o, x, c, z)
    } else if o.name == "AFFINE"@ {
        affine_to(ops, host, dir, o, x, c, z)
    } else if o.name == "PRELU_BIAS"@ {
        prelu_to(ops, host, dir, o, x, c, z)
    } else if o.name == "BIAS"@ {
        bias_to(ops, host, dir, o, x, c, z)
    } else if o.name == "SUBSAMPLE"@ {
        subsample_to(o, x, c, z)
    } else if o.name == "ADD"@ {
        add_to(ops, o, x, c, z)
    } else if o.name == "HEAD"@ {
        head_to(ops, host, dir, o, x, c, z)
    } else {
        stops(z, c, "unknown op "@ + o.name)
    }
}

/// `tr` are the states and caches before and after each of the first `n`
/// operations, from the cache `c`.
pub open spec fn trace<
    A: Fn(u32, u32) -> u32,
    M: Fn(u32, u32) -> u32,
    E: Fn(&String, &String, &String, &String) -> Result<(), Error>,
    D: Fn(&String, &Vec<u16>, &Vec<u16>, usize) -> Result<Vec<u16>, Error>,
    B: Fn(&String) -> Result<Vec<u16>, Error>,
    F: Fn(&String) -> Result<Vec<u32>, Error>,
>(
    ops: &Ops<A, M>,
    host: &Host<E, D, B, F>,
    dir: Seq<char>,
    given: Option<Seq<u16>>,
    plan: Seq<OpView>,
    c: CacheView,
    tr: Seq<(RunView, CacheView)>,
    n: int,
) -> bool {
    &&& 0 <= n <= plan.len()
    &&& tr.len() == n + 1
    &&& tr[0] == (RunView { bufs: Map::empty(), accs: Map::empty(), embed: seq![] }, c)
    &&& forall|i: int| #![trigger tr[i + 1]]
        0 <= i < n ==> op_to(
            ops,
            host,
            dir,
            given,
            plan[i],
            tr[i].0,
            tr[i].1,
            After { r: Ok(tr[i + 1].0), cache: tr[i + 1].1 },
        )
}

/// What a forward comes to, from the cache `c` to `d`: after all operations
/// the last embedding, which must not be empty; or the error of the first
/// operation that fails.
pub open spec fn forward_to<
    A: Fn(u32, u32) -> u32,
    M: Fn(u32, u32) -> u32,
    E: Fn(&String, &String, &String, &String) -> Result<(), Error>,
    D: Fn(&String, &Vec<u16>, &Vec<u16>, usize) -> Result<Vec<u16>, Error>,
    B: Fn(&String) -> Result<Vec<u16>, Error>,
    F: Fn(&String) -> Result<Vec<u32>, Error>,
>(
    ops: &Ops<A, M>,
    host: &Host<E, D, B, F>,
    dir: Seq<char>,
    given: Option<Seq<u16>>,
    plan: Seq<OpView>,
    c: CacheView,
    r: Result<Seq<u32>, Error>,
    d: CacheView,
) -> bool {
    exists|tr: Seq<(RunView, CacheView)>, n: int| #[trigger]
        trace(ops, host, dir, given, plan, c, tr, n) && if n < plan.len() {
            r matches Err(e) && op_to(
                ops,
                host,
                dir,
                given,
                plan[n],
                tr.last().0,
                tr.last().1,
                After { r: Err(e), cache: d },
            )
        } else if tr.last().0.embed.len() == 0 {
            d == tr.last().1 && (r matches Err(e) && plan_error(e, "plan produced no embedding (no HEAD op)"@))
        } else {
            d == tr.last().1 && r == Ok::<Seq<u32>, Error>(tr.last().0.embed)
        }
}

// ----------------------------------------------------------------------------
// Running a plan
// ----------------------------------------------------------------------------

/// What a step that returned `r` and left the state `y` and the cache `c`
/// comes to.
pub open spec fn outcome(r: Result<(), Error>, y: RunView, c: CacheView) -> After {
    After {
        r: match r {
            Ok(_) => Ok(y),
            Err(e) => Err(e),
        },
        cache: c,
    }
}

pub open spec fn given_of(given: Option<&Vec<u16>>) -> Option<Seq<u16>> {
    match given {
        Some(t) => Some(t@),
        None => None,
    }
}

fn unknown_buffer(op: &str, id: u32) -> (r: Error)
    ensures
        plan_error(r, undefined(op@, id)),
{
    let n = decimal_of(id as u128);
    Error::Plan(cat4(op, ": buffer ", n.as_str(), " undefined"))
}

fn finish_input(run: &mut Run, o: &Op, dims: (u64, u64, u64), t: Vec<u16>, Ghost(c): Ghost<CacheView>) -> (r: Result<
    (),
    Error,
>)
    requires
        countable(dims),
    ensures
        input_end(o@, dims, t@, old(run)@, c, outcome(r, final(run)@, c)),
{
    let id: u32 = o.id("buf")?;
    let b = Buf { v: t, c: dims.0 as usize, h: dims.1 as usize, w: dims.2 as usize };
    run.bufs.insert(id, b);
    Ok(())
}

/// A convolution's keys, executable.
struct Keys {
    input: u32,
    out: u32,
    c0: u64,
    icg: u64,
    oc: u64,
    oh: u64,
    ow: u64,
    owp: u64,
    wp: u64,
    xclbin: String,
    insts: String,
    kernel: String,
}

impl View for Keys {
    type V = ConvKeys;

    closed spec fn view(&self) -> ConvKeys {
        ConvKeys {
            input: self.input,
            out: self.out,
            c0: self.c0,
            icg: self.icg,
            oc: self.oc,
            oh: self.oh,
            ow: self.ow,
            owp: self.owp,
            wp: self.wp,
            xclbin: self.xclbin@,
            insts: self.insts@,
            kernel: self.kernel@,
        }
    }
}

fn read_conv_keys(o: &Op) -> (r: Result<Keys, Error>)
    ensures
        shows(r, conv_keys(o@)),
{
    Ok(
        Keys {
            input: o.id("in")?,
            out: o.id("out")?,
            c0: o.size("c0")?,
            icg: o.size("icg")?,
            oc: o.size("oc")?,
            oh: o.size("oh")?,
            ow: o.size("ow")?,
            owp: o.size("owp")?,
            wp: o.size("wp")?,
            xclbin: o.gets("xclbin")?,
            insts: o.gets("insts")?,
            kernel: o.gets("kernel")?,
        },
    )
}

/// The length of the accumulator that a dispatch adds to.
fn sums(run: &Run, s: Sink) -> (r: usize)
    requires
        s.oc * s.oh * s.owp <= usize::MAX,
    ensures
        r == acc_before(run@, s).len(),
{
    match run.accs.get(&s.out) {
        Some(a) => {
            assert(run@.accs[s.out] == a@);
            a.len()
        },
        None => match mul3(s.oc, s.oh, s.owp) {
            Some(n) => n,
            None => 0,
        },
    }
}

/// Adds the device's answer to a dispatch into its accumulator, and after
/// the last dispatch rounds and crops the sums into the output buffer.
fn absorb<A: Fn(u32, u32) -> u32, M: Fn(u32, u32) -> u32>(run: &mut Run, s: Sink, part: &Vec<u16>, ops: &Ops<A, M>)
    requires
        ops.total(),
        s.oc * s.oh * s.owp <= usize::MAX,
        s.last ==> crop_fits(
            acc_before(old(run)@, s).len() as int,
            s.oc as int,
            s.oh as int,
            s.owp as int,
            s.ow as int,
        ),
    ensures
        absorbed(ops, s, part@, old(run)@, final(run)@),
{
    let ghost x = run@;
    let have = match run.accs.remove(&s.out) {
        Some(a) => a,
        None => {
            let n: usize = match mul3(s.oc, s.oh, s.owp) {
                Some(n) => n,
                None => 0,
            };
            zeros(n)
        },
    };
    proof {
        if x.accs.contains_key(s.out) {
            assert(have@ == x.accs[s.out]);
        } else {
            assert(have@ == Seq::new((s.oc * s.oh * s.owp) as nat, |i: int| 0u32));
        }
    }
    let acc = accumulate(have, part, s.first, ops);
    proof {
        assert(ops.accumulated(acc_before(x, s), part@, acc@));
    }
    if s.last {
        let out = crop(&acc, s.oc, s.oh, s.owp, s.ow);
        run.bufs.insert(s.out, out);
    }
    run.accs.insert(s.out, acc);
    proof {
        assert(run@.accs =~= x.accs.insert(s.out, acc@));
    }
}

fn finish_conv<A: Fn(u32, u32) -> u32, M: Fn(u32, u32) -> u32>(
    run: &mut Run,
    o: &Op,
    k: &Keys,
    part: &Vec<u16>,
    ops: &Ops<A, M>,
    Ghost(c): Ghost<CacheView>,
) -> (r: Result<(), Error>)
    requires
        ops.total(),
        conv_countable(k@),
        k.oc * k.oh * k.owp <= usize::MAX,
    ensures
        conv_end(ops, o@, k@, part@, old(run)@, c, outcome(r, final(run)@, c)),
{
    let first: i64 = o.geti("first")?;
    let last: i64 = o.geti("last")?;
    let s = Sink {
        out: k.out,
        oc: k.oc as usize,
        oh: k.oh as usize,
        ow: k.ow as usize,
        owp: k.owp as usize,
        first: first == 1,
        last: last == 1,
    };
    assert(s == sink(k@, first == 1, last == 1));
    if s.last && !can_crop(sums(run, s), s.oc, s.oh, s.owp, s.ow) {
        return Err(misfit("CONV"));
    }
    absorb(run, s, part, ops);
    Ok(())
}

impl Plan {
    fn run_input<
        E: Fn(&String, &String, &String, &String) -> Result<(), Error>,
        D: Fn(&String, &Vec<u16>, &Vec<u16>, usize) -> Result<Vec<u16>, Error>,
        B: Fn(&String) -> Result<Vec<u16>, Error>,
        F: Fn(&String) -> Result<Vec<u32>, Error>,
    >(
        run: &mut Run,
        cache: &mut Cache,
        dir: &str,
        o: &Op,
        given: Option<&Vec<u16>>,
        host: &Host<E, D, B, F>,
    ) -> (r: Result<(), Error>)
        requires
            host.total(),
        ensures
            input_to(
                host,
                dir@,
                o@,
                given_of(given),
                old(run)@,
                old(cache)@,
                outcome(r, final(run)@, final(cache)@),
            ),
    {
        let c: u64 = o.size("c")?;
        let h: u64 = o.size("h")?;
        let w: u64 = o.size("w")?;
        if c > usize::MAX as u64 || h > usize::MAX as u64 || w > usize::MAX as u64 {
            return Err(misfit("INPUT"));
        }
        match given {
            Some(t) => {
                let n: usize = match held(h as usize, c as usize / 8, w as usize) {
                    Some(n) => n,
                    None => {
                        return Err(misfit("INPUT"));
                    },
                };
                if t.len() != n {
                    let a = decimal_of(t.len() as u128);
                    let b = decimal_of(n as u128);
                    return Err(Error::Input(cat4("tiled input length ", a.as_str(), " != ", b.as_str())));
                }
                let ghost now = cache@;
                finish_input(run, o, (c, h, w), copy16(t), Ghost(now))
            },
            None => {
                let f = o.gets("file")?;
                match host.fetch16(cache, dir, f) {
                    Err(e) => Err(e),
                    Ok(v) => {
                        let ghost now = cache@;
                        let ghost (x, got) = (run@, v@);
                        let r = finish_input(run, o, (c, h, w), v, Ghost(now));
                        proof {
                            assert(input_end(o@, (c, h, w), got, x, now, outcome(r, run@, cache@)));
                        }
                        r
                    },
                }
            },
        }
    }

    fn run_conv<
        A: Fn(u32, u32) -> u32,
        M: Fn(u32, u32) -> u32,
        E: Fn(&String, &String, &String, &String) -> Result<(), Error>,
        D: Fn(&String, &Vec<u16>, &Vec<u16>, usize) -> Result<Vec<u16>, Error>,
        B: Fn(&String) -> Result<Vec<u16>, Error>,
        F: Fn(&String) -> Result<Vec<u32>, Error>,
    >(run: &mut Run, cache: &mut Cache, dir: &str, o: &Op, ops: &Ops<A, M>, host: &Host<E, D, B, F>) -> (r: Result<
        (),
        Error,
    >)
        requires
            ops.total(),
            host.total(),
        ensures
            conv_op_to(ops, host, dir@, o@, old(run)@, old(cache)@, outcome(r, final(run)@, final(cache)@)),
    {
        let k = read_conv_keys(o)?;
        let xclbin = join(dir, k.xclbin.as_str());
        let insts = join(dir, k.insts.as_str());
        let made = (host.ensure)(&k.xclbin, &xclbin, &insts, &k.kernel);
        proof {
            assert(host.made(k@.xclbin, joined(dir@, k@.xclbin), joined(dir@, k@.insts), k@.kernel, made));
        }
        match made {
            Err(e) => Err(e),
            Ok(u) => {
                assert(u == ());
                Self::run_ready_conv(run, cache, dir, o, &k, ops, host)
            },
        }
    }

    fn run_ready_conv<
        A: Fn(u32, u32) -> u32,
        M: Fn(u32, u32) -> u32,
        E: Fn(&String, &String, &String, &String) -> Result<(), Error>,
        D: Fn(&String, &Vec<u16>, &Vec<u16>, usize) -> Result<Vec<u16>, Error>,
        B: Fn(&String) -> Result<Vec<u16>, Error>,
        F: Fn(&String) -> Result<Vec<u32>, Error>,
    >(
        run: &mut Run,
        cache: &mut Cache,
        dir: &str,
        o: &Op,
        k: &Keys,
        ops: &Ops<A, M>,
        host: &Host<E, D, B, F>,
    ) -> (r: Result<(), Error>)
        requires
            ops.total(),
            host.total(),
        ensures
            conv_ready(ops, host, dir@, o@, k@, old(run)@, old(cache)@, outcome(r, final(run)@, final(cache)@)),
    {
        let ghost x = run@;
        let src = match run.bufs.get(&k.input) {
            Some(b) => b,
            None => {
                return Err(unknown_buffer("CONV", k.input));
            },
        };
        assert(x.bufs.contains_key(k.input));
        if k.wp > usize::MAX as u64 || k.icg / 8 > usize::MAX as u64 || k.oc > usize::MAX as u64 || k.oh > usize::MAX as u64
            || k.ow > usize::MAX as u64 || k.owp > usize::MAX as u64 {
            return Err(misfit("CONV"));
        }
        let inp = match slice(src, k.c0, (k.icg / 8) as usize, k.wp as usize) {
            Some(v) => v,
            None => {
                return Err(misfit("CONV"));
            },
        };
        let name = o.gets("wt")?;
        match host.fetch16(cache, dir, name) {
            Err(e) => Err(e),
            Ok(wt) => {
                let ghost now = cache@;
                let r = Self::run_on_device(run, o, k, &inp, &wt, ops, host, Ghost(now));
                proof {
                    assert(conv_run(ops, host, o@, k@, wt@, x, now, outcome(r, run@, cache@)));
                }
                r
            },
        }
    }

    fn run_on_device<
        A: Fn(u32, u32) -> u32,
        M: Fn(u32, u32) -> u32,
        E: Fn(&String, &String, &String, &String) -> Result<(), Error>,
        D: Fn(&String, &Vec<u16>, &Vec<u16>, usize) -> Result<Vec<u16>, Error>,
        B: Fn(&String) -> Result<Vec<u16>, Error>,
        F: Fn(&String) -> Result<Vec<u32>, Error>,
    >(
        run: &mut Run,
        o: &Op,
        k: &Keys,
        inp: &Vec<u16>,
        wt: &Vec<u16>,
        ops: &Ops<A, M>,
        host: &Host<E, D, B, F>,
        Ghost(c): Ghost<CacheView>,
    ) -> (r: Result<(), Error>)
        requires
            ops.total(),
            host.total(),
            conv_countable(k@),
            inp@ == sliced(&old(run)@.bufs[k.input], k.c0 as int, k.icg as int / 8, k.wp as int),
        ensures
            conv_run(ops, host, o@, k@, wt@, old(run)@, c, outcome(r, final(run)@, c)),
    {
        let ghost x = run@;
        let n: usize = match mul3(k.oc as usize, k.oh as usize, k.owp as usize) {
            Some(n) => n,
            None => {
                return Err(misfit("CONV"));
            },
        };
        let ran = (host.run)(&k.xclbin, inp, wt, n);
        proof {
            assert(host.ran(k@.xclbin, inp@, wt@, n as int, contents(ran)));
        }
        match ran {
            Err(e) => Err(e),
            Ok(part) => {
                let r = finish_conv(run, o, k, &part, ops, Ghost(c));
                proof {
                    assert(host.ran(k@.xclbin, inp@, wt@, n as int, Ok(part@)));
                    assert(conv_end(ops, o@, k@, part@, x, c, outcome(r, run@, c)));
                }
                r
            },
        }
    }

    fn run_affine<
        A: Fn(u32, u32) -> u32,
        M: Fn(u32, u32) -> u32,
        E: Fn(&String, &String, &String, &String) -> Result<(), Error>,
        D: Fn(&String, &Vec<u16>, &Vec<u16>, usize) -> Result<Vec<u16>, Error>,
        B: Fn(&String) -> Result<Vec<u16>, Error>,
        F: Fn(&String) -> Result<Vec<u32>, Error>,
    >(run: &mut Run, cache: &mut Cache, dir: &str, o: &Op, ops: &Ops<A, M>, host: &Host<E, D, B, F>) -> (r: Result<
        (),
        Error,
    >)
        requires
            ops.total(),
            host.total(),
        ensures
            affine_to(ops, host, dir@, o@, old(run)@, old(cache)@, outcome(r, final(run)@, final(cache)@)),
    {
        let from: u32 = o.id("in")?;
        let out: u32 = o.id("out")?;
        let scale_name = o.gets("scale")?;
        let shift_name = o.gets("shift")?;
        let ghost (x, c0) = (run@, cache@);
        let scale = match host.fetch16(cache, dir, scale_name) {
            Err(e) => {
                assert(host.fetches16(dir@, scale_name@, c0, Err(e), cache@));
                return Err(e);
            },
            Ok(v) => v,
        };
        let ghost c1 = cache@;
        proof {
            assert(host.fetches16(dir@, scale_name@, c0, Ok(scale@), c1));
        }
        let shift = match host.fetch16(cache, dir, shift_name) {
            Err(e) => {
                assert(host.fetches16(dir@, shift_name@, c1, Err(e), cache@));
                return Err(e);
            },
            Ok(v) => v,
        };
        let ghost c2 = cache@;
        proof {
            assert(host.fetches16(dir@, shift_name@, c1, Ok(shift@), c2));
        }
        let src = match run.bufs.get(&from) {
            Some(b) => b,
            None => {
                return Err(unknown_buffer("AFFINE", from));
            },
        };
        assert(x.bufs.contains_key(from));
        if !can_walk(src, scale.len()) || !can_walk(src, shift.len()) {
            return Err(misfit("AFFINE"));
        }
        let b = affine(src, &scale, &shift, ops);
        run.bufs.insert(out, b);
        proof {
            assert(affine_end(ops, from, out, scale@, shift@, x, c2, outcome(Ok(()), run@, c2)));
        }
        Ok(())
    }

    fn run_prelu<
        A: Fn(u32, u32) -> u32,
        M: Fn(u32, u32) -> u32,
        E: Fn(&String, &String, &String, &String) -> Result<(), Error>,
        D: Fn(&String, &Vec<u16>, &Vec<u16>, usize) -> Result<Vec<u16>, Error>,
        B: Fn(&String) -> Result<Vec<u16>, Error>,
        F: Fn(&String) -> Result<Vec<u32>, Error>,
    >(run: &mut Run, cache: &mut Cache, dir: &str, o: &Op, ops: &Ops<A, M>, host: &Host<E, D, B, F>) -> (r: Result<
        (),
        Error,
    >)
        requires
            ops.total(),
            host.total(),
        ensures
            prelu_to(ops, host, dir@, o@, old(run)@, old(cache)@, outcome(r, final(run)@, final(cache)@)),
    {
        let id: u32 = o.id("buf")?;
        let alpha_name = o.gets("alpha")?;
        let ghost (x, c0) = (run@, cache@);
        let alpha = match host.fetch16(cache, dir, alpha_name) {
            Err(e) => {
                assert(host.fetches16(dir@, alpha_name@, c0, Err(e), cache@));
                return Err(e);
            },
            Ok(v) => v,
        };
        let ghost c1 = cache@;
        proof {
            assert(host.fetches16(dir@, alpha_name@, c0, Ok(alpha@), c1));
        }
        let bias_name = o.gets("bias")?;
        let bias = match host.fetch16(cache, dir, bias_name) {
            Err(e) => {
                assert(host.fetches16(dir@, bias_name@, c1, Err(e), cache@));
                return Err(e);
            },
            Ok(v) => v,
        };
        let ghost c2 = cache@;
        proof {
            assert(host.fetches16(dir@, bias_name@, c1, Ok(bias@), c2));
        }
        let fits: bool = match run.bufs.get(&id) {
            Some(b) => can_walk(b, alpha.len()) && can_walk(b, bias.len()),
            None => {
                return Err(unknown_buffer("PRELU_BIAS", id));
            },
        };
        assert(x.bufs.contains_key(id));
        if !fits {
            return Err(misfit("PRELU_BIAS"));
        }
        let b = prelu_bias(run.bufs.remove(&id).unwrap(), &alpha, &bias, ops);
        run.bufs.insert(id, b);
        proof {
            assert(run@.bufs =~= x.bufs.insert(id, b));
            assert(prelu_end(ops, id, alpha@, bias@, x, c2, outcome(Ok(()), run@, c2)));
        }
        Ok(())
    }

    fn run_bias<
        A: Fn(u32, u32) -> u32,
        M: Fn(u32, u32) -> u32,
        E: Fn(&String, &String, &String, &String) -> Result<(), Error>,
        D: Fn(&String, &Vec<u16>, &Vec<u16>, usize) -> Result<Vec<u16>, Error>,
        B: Fn(&String) -> Result<Vec<u16>, Error>,
        F: Fn(&String) -> Result<Vec<u32>, Error>,
    >(run: &mut Run, cache: &mut Cache, dir: &str, o: &Op, ops: &Ops<A, M>, host: &Host<E, D, B, F>) -> (r: Result<
        (),
        Error,
    >)
        requires
            ops.total(),
            host.total(),
        ensures
            bias_to(ops, host, dir@, o@, old(run)@, old(cache)@, outcome(r, final(run)@, final(cache)@)),
    {
        let id: u32 = o.id("buf")?;
        let bias_name = o.gets("bias")?;
        let ghost (x, c0) = (run@, cache@);
        let bias = match host.fetch16(cache, dir, bias_name) {
            Err(e) => {
                assert(host.fetches16(dir@, bias_name@, c0, Err(e), cache@));
                return Err(e);
            },
            Ok(v) => v,
        };
        let ghost c1 = cache@;
        proof {
            assert(host.fetches16(dir@, bias_name@, c0, Ok(bias@), c1));
        }
        let fits: bool = match run.bufs.get(&id) {
            Some(b) => can_walk(b, bias.len()),
            None => {
                return Err(unknown_buffer("BIAS", id));
            },
        };
        assert(x.bufs.contains_key(id));
        if !fits {
            return Err(misfit("BIAS"));
        }
        let b = shift(run.bufs.remove(&id).unwrap(), &bias, ops);
        run.bufs.insert(id, b);
        proof {
            assert(run@.bufs =~= x.bufs.insert(id, b));
            assert(bias_end(ops, id, bias@, x, c1, outcome(Ok(()), run@, c1)));
        }
        Ok(())
    }

    fn run_subsample(run: &mut Run, o: &Op, Ghost(c): Ghost<CacheView>) -> (r: Result<(), Error>)
        ensures
            subsample_to(o@, old(run)@, c, outcome(r, final(run)@, c)),
    {
        let from: u32 = o.id("in")?;
        let out: u32 = o.id("out")?;
        let src = match run.bufs.get(&from) {
            Some(b) => b,
            None => {
                return Err(unknown_buffer("SUBSAMPLE", from));
            },
        };
        assert(run@.bufs.contains_key(from));
        let stride: u64 = o.size("stride")?;
        if stride > usize::MAX as u64 {
            return Err(misfit("SUBSAMPLE"));
        }
        match subsample(src, stride as usize) {
            Some(b) => {
                run.bufs.insert(out, b);
                Ok(())
            },
            None => Err(misfit("SUBSAMPLE")),
        }
    }

    fn run_add<A: Fn(u32, u32) -> u32, M: Fn(u32, u32) -> u32>(
        run: &mut Run,
        o: &Op,
        ops: &Ops<A, M>,
        Ghost(c): Ghost<CacheView>,
    ) -> (r: Result<(), Error>)
        requires
            ops.total(),
        ensures
            add_to(ops, o@, old(run)@, c, outcome(r, final(run)@, c)),
    {
        let a: u32 = o.id("a")?;
        let b: u32 = o.id("b")?;
        let out: u32 = o.id("out")?;
        let l = match run.bufs.get(&a) {
            Some(x) => x,
            None => {
                return Err(unknown_buffer("ADD", a));
            },
        };
        let q = match run.bufs.get(&b) {
            Some(x) => x,
            None => {
                return Err(unknown_buffer("ADD", b));
            },
        };
        assert(run@.bufs.contains_key(a) && run@.bufs.contains_key(b));
        let s = total(l, q, ops);
        run.bufs.insert(out, s);
        Ok(())
    }

    fn run_head<
        A: Fn(u32, u32) -> u32,
        M: Fn(u32, u32) -> u32,
        E: Fn(&String, &String, &String, &String) -> Result<(), Error>,
        D: Fn(&String, &Vec<u16>, &Vec<u16>, usize) -> Result<Vec<u16>, Error>,
        B: Fn(&String) -> Result<Vec<u16>, Error>,
        F: Fn(&String) -> Result<Vec<u32>, Error>,
    >(run: &mut Run, cache: &mut Cache, dir: &str, o: &Op, ops: &Ops<A, M>, host: &Host<E, D, B, F>) -> (r: Result<
        (),
        Error,
    >)
        requires
            ops.total(),
            host.total(),
        ensures
            head_to(ops, host, dir@, o@, old(run)@, old(cache)@, outcome(r, final(run)@, final(cache)@)),
    {
        let ghost (x, c0) = (run@, cache@);
        let from: u32 = o.id("in")?;
        let k: u64 = o.size("k")?;
        let n: u64 = o.size("n")?;
        let src = match run.bufs.get(&from) {
            Some(b) => b,
            None => {
                return Err(unknown_buffer("HEAD", from));
            },
        };
        let ghost held = *src;
        proof {
            assert(x.bufs.contains_key(from));
        }
        let size: usize = match mul3(src.c, src.h, src.w) {
            Some(n) => n,
            None => {
                return Err(misfit("HEAD"));
            },
        };
        if size as u64 != k {
            let a = decimal_of(size as u128);
            let b = decimal_of(k as u128);
            return Err(Error::Plan(cat4("HEAD input K mismatch: ", a.as_str(), " != ", b.as_str())));
        }
        if !can_walk(src, src.c) {
            return Err(misfit("HEAD"));
        }
        let row = flat(src);
        let bt_name = o.gets("bT")?;
        let b2_name = o.gets("b2")?;
        let bt = match host.fetch_weights(cache, dir, bt_name) {
            Err(e) => {
                assert(host.fetches32(bt_name@, host.widened_file(joined(dir@, bt_name@)), c0, Err(e), cache@));
                return Err(e);
            },
            Ok(v) => v,
        };
        let ghost c1 = cache@;
        proof {
            assert(host.fetches32(bt_name@, host.widened_file(joined(dir@, bt_name@)), c0, Ok(bt@), c1));
        }
        let b2 = match host.fetch_biases(cache, dir, b2_name) {
            Err(e) => {
                assert(host.fetches32(b2_name@, host.real_file(joined(dir@, b2_name@)), c1, Err(e), cache@));
                return Err(e);
            },
            Ok(v) => v,
        };
        let ghost c2 = cache@;
        proof {
            assert(host.fetches32(b2_name@, host.real_file(joined(dir@, b2_name@)), c1, Ok(b2@), c2));
        }
        let r = finish_head(run, &row, &bt, b2, size, n, ops, Ghost(held), Ghost(c2));
        proof {
            assert(head_end(ops, held, bt@, b2@, k, n, x, c2, outcome(r, run@, c2)));
        }
        r
    }

    fn run_op<
        A: Fn(u32, u32) -> u32,
        M: Fn(u32, u32) -> u32,
        E: Fn(&String, &String, &String, &String) -> Result<(), Error>,
        D: Fn(&String, &Vec<u16>, &Vec<u16>, usize) -> Result<Vec<u16>, Error>,
        B: Fn(&String) -> Result<Vec<u16>, Error>,
        F: Fn(&String) -> Result<Vec<u32>, Error>,
    >(
        run: &mut Run,
        cache: &mut Cache,
        dir: &str,
        o: &Op,
        given: Option<&Vec<u16>>,
        ops: &Ops<A, M>,
        host: &Host<E, D, B, F>,
    ) -> (r: Result<(), Error>)
        requires
            ops.total(),
            host.total(),
        ensures
            op_to(
                ops,
                host,
                dir@,
                given_of(given),
                o@,
                old(run)@,
                old(cache)@,
                outcome(r, final(run)@, final(cache)@),
            ),
    {
        let name = o.name.as_str();
        let ghost now = cache@;
        if same(name, "INPUT") {
            Self::run_input(run, cache, dir, o, given, host)
        } else if same(name, "CONV") {
            Self::run_conv(run, cache, dir, o, ops, host)
        } else if same(name, "AFFINE") {
            Self::run_affine(run, cache, dir, o, ops, host)
        } else if same(name, "PRELU_BIAS") {
            Self::run_prelu(run, cache, dir, o, ops, host)
        } else if same(name, "BIAS") {
            Self::run_bias(run, cache, dir, o, ops, host)
        } else if same(name, "SUBSAMPLE") {
            Self::run_subsample(run, o, Ghost(now))
        } else if same(name, "ADD") {
            Self::run_add(run, o, ops, Ghost(now))
        } else if same(name, "HEAD") {
            Self::run_head(run, cache, dir, o, ops, host)
        } else {
            Err(Error::Plan(cat2("unknown op ", name)))
        }
    }

    /// One forward pass over the plan of the bundle in `dir`. `given`
    /// overrides the input's recorded file with a caller-built tiled
    /// buffer; what is read of the bundle stays in `cache`.
    pub fn forward_ops<
        A: Fn(u32, u32) -> u32,
        M: Fn(u32, u32) -> u32,
        E: Fn(&String, &String, &String, &String) -> Result<(), Error>,
        D: Fn(&String, &Vec<u16>, &Vec<u16>, usize) -> Result<Vec<u16>, Error>,
        B: Fn(&String) -> Result<Vec<u16>, Error>,
        F: Fn(&String) -> Result<Vec<u32>, Error>,
    >(
        &self,
        dir: &str,
        given: Option<&Vec<u16>>,
        cache: &mut Cache,
        ops: &Ops<A, M>,
        host: &Host<E, D, B, F>,
    ) -> (r: Result<Vec<u32>, Error>)
        requires
            ops.total(),
            host.total(),
        ensures
            forward_to(ops, host, dir@, given_of(given), self@.ops, old(cache)@, contents(r), final(cache)@),
    {
        let ghost input = given_of(given);
        let ghost plan = self@.ops;
        let ghost c0 = cache@;
        let mut run = Run { bufs: HashMap::new(), accs: HashMap::new(), embed: Vec::new() };
        let ghost mut tr: Seq<(RunView, CacheView)> = seq![(run@, c0)];
        proof {
            assert(run@.bufs =~= Map::empty());
            assert(run@.accs =~= Map::empty());
            assert(run@.embed =~= seq![]);
        }
        let mut i: usize = 0;
        while i < self.ops.len()
            invariant
                i <= self.ops.len(),
                plan == op_views(self.ops@),
                ops.total(),
                host.total(),
                input == given_of(given),
                c0 == old(cache)@,
                trace(ops, host, dir@, input, plan, c0, tr, i as int),
                tr.last() == (run@, cache@),
            decreases self.ops.len() - i,
        {
            let ghost (x, c) = (run@, cache@);
            let o = &self.ops[i];
            assert(plan[i as int] == o@);
            let r = Self::run_op(&mut run, cache, dir, o, given, ops, host);
            match r {
                Ok(_) => {
                    proof {
                        let next = tr.push((run@, cache@));
                        assert forall|k: int| #![trigger next[k + 1]] 0 <= k < i + 1 implies op_to(
                            ops,
                            host,
                            dir@,
                            input,
                            plan[k],
                            next[k].0,
                            next[k].1,
                            After { r: Ok(next[k + 1].0), cache: next[k + 1].1 },
                        ) by {
                            if k < i {
                                assert(next[k + 1] == tr[k + 1]);
                            }
                        }
                        tr = next;
                    }
                },
                Err(e) => {
                    return Err(e);
                },
            }
            i = i + 1;
        }
        if run.embed.len() == 0 {
            return Err(Error::Plan("plan produced no embedding (no HEAD op)".to_string()));
        }
        Ok(run.embed)
    }

    /// Embeds a caller's image: channel-major single precision (as bits),
    /// one to all of the stem's channels.
    pub fn embed<
        A: Fn(u32, u32) -> u32,
        M: Fn(u32, u32) -> u32,
        E: Fn(&String, &String, &String, &String) -> Result<(), Error>,
        D: Fn(&String, &Vec<u16>, &Vec<u16>, usize) -> Result<Vec<u16>, Error>,
        B: Fn(&String) -> Result<Vec<u16>, Error>,
        F: Fn(&String) -> Result<Vec<u32>, Error>,
    >(
        &self,
        dir: &str,
        chw: &[u32],
        cache: &mut Cache,
        ops: &Ops<A, M>,
        host: &Host<E, D, B, F>,
    ) -> (r: Result<Vec<u32>, Error>)
        requires
            ops.total(),
            host.total(),
        ensures
            (final(cache)@ == old(cache)@ && (r matches Err(e) && tiled_to(self@.ends, chw@, Err(e)))) || exists|
                t: Seq<u16>,
            |
                #[trigger] tiled_to(self@.ends, chw@, Ok(t)) && forward_to(
                    ops,
                    host,
                    dir@,
                    Some(t),
                    self@.ops,
                    old(cache)@,
                    contents(r),
                    final(cache)@,
                ),
    {
        match self.tile_input(chw) {
            Err(e) => Err(e),
            Ok(t) => {
                assert(tiled_to(self@.ends, chw@, Ok(t@)));
                self.forward_ops(dir, Some(&t), cache, ops, host)
            },
        }
    }
}

/// The embedding of a flattened buffer, if the weights and biases cover it.
fn finish_head<A: Fn(u32, u32) -> u32, M: Fn(u32, u32) -> u32>(
    run: &mut Run,
    row: &Vec<u32>,
    bt: &Vec<u32>,
    b2: Vec<u32>,
    size: usize,
    n: u64,
    ops: &Ops<A, M>,
    Ghost(src): Ghost<Buf>,
    Ghost(c): Ghost<CacheView>,
) -> (r: Result<(), Error>)
    requires
        ops.total(),
        row@ == planar(&src),
        size == src.c * src.h * src.w,
    ensures
        head_end(ops, src, bt@, b2@, size as u64, n, old(run)@, c, outcome(r, final(run)@, c)),
{
    if size == 0 {
        run.embed = b2;
        return Ok(());
    }
    let have: usize = bt.len();
    let fits = n <= b2.len() as u64 && (match mul2(size, n as usize) {
        Some(t) => t <= have,
        None => false,
    });
    if !fits {
        proof {
            if n <= b2@.len() {
                assert((n as usize) as int == n as int);
                assert(size as int * n as int > bt@.len());
            }
        }
        return Err(misfit("HEAD"));
    }
    run.embed = head(row, bt, &b2, size, n as usize, ops);
    Ok(())
}

// ----------------------------------------------------------------------------
// Laws
// ----------------------------------------------------------------------------

/// The cache `d` holds all that `c` holds.
pub open spec fn grows(c: CacheView, d: CacheView) -> bool {
    c.halves.submap_of(d.halves) && c.reals.submap_of(d.reals)
}

proof fn grows_through(a: CacheView, b: CacheView, c: CacheView)
    requires
        grows(a, b),
        grows(b, c),
    ensures
        grows(a, c),
{
    assert forall|k: Seq<char>| #[trigger] a.halves.dom().contains(k) implies c.halves.dom().contains(k) && a.halves[k]
        == c.halves[k] by {
        assert(b.halves.dom().contains(k));
    }
    assert forall|k: Seq<char>| #[trigger] a.reals.dom().contains(k) implies c.reals.dom().contains(k) && a.reals[k]
        == c.reals[k] by {
        assert(b.reals.dom().contains(k));
    }
}

/// Unless the key is missing, the file it names is cached.
pub open spec fn has_half(c: CacheView, o: OpView, k: Seq<char>) -> bool {
    o.gets(k) matches Ok(f) ==> c.halves.contains_key(f)
}

pub open spec fn has_real(c: CacheView, o: OpView, k: Seq<char>) -> bool {
    o.gets(k) matches Ok(f) ==> c.reals.contains_key(f)
}

/// Every file operation `o` would read is cached; a given input is not read.
pub open spec fn cached(o: OpView, given: bool, c: CacheView) -> bool {
    &&& o.name == "INPUT"@ && !given ==> has_half(c, o, "file"@)
    &&& o.name == "CONV"@ ==> has_half(c, o, "wt"@)
    &&& o.name == "AFFINE"@ ==> has_half(c, o, "scale"@) && has_half(c, o, "shift"@)
    &&& o.name == "PRELU_BIAS"@ ==> has_half(c, o, "alpha"@) && has_half(c, o, "bias"@)
    &&& o.name == "BIAS"@ ==> has_half(c, o, "bias"@)
    &&& o.name == "HEAD"@ ==> has_real(c, o, "bT"@) && has_real(c, o, "b2"@)
}

pub open spec fn all_cached(plan: Seq<OpView>, given: bool, c: CacheView) -> bool {
    forall|i: int| 0 <= i < plan.len() ==> cached(#[trigger] plan[i], given, c)
}

/// The operations' names differ.
proof fn names_differ()
    ensures
        "INPUT"@ != "CONV"@ && "INPUT"@ != "AFFINE"@ && "INPUT"@ != "PRELU_BIAS"@ && "INPUT"@ != "BIAS"@ && "INPUT"@
            != "HEAD"@,
        "CONV"@ != "AFFINE"@ && "CONV"@ != "PRELU_BIAS"@ && "CONV"@ != "BIAS"@ && "CONV"@ != "HEAD"@,
        "AFFINE"@ != "PRELU_BIAS"@ && "AFFINE"@ != "BIAS"@ && "AFFINE"@ != "HEAD"@,
        "PRELU_BIAS"@ != "BIAS"@ && "PRELU_BIAS"@ != "HEAD"@,
        "BIAS"@ != "HEAD"@,
        "SUBSAMPLE"@ != "INPUT"@ && "SUBSAMPLE"@ != "CONV"@ && "SUBSAMPLE"@ != "AFFINE"@ && "SUBSAMPLE"@ != "PRELU_BIAS"@
            && "SUBSAMPLE"@ != "BIAS"@ && "SUBSAMPLE"@ != "HEAD"@,
        "ADD"@ != "INPUT"@ && "ADD"@ != "CONV"@ && "ADD"@ != "AFFINE"@ && "ADD"@ != "PRELU_BIAS"@ && "ADD"@ != "BIAS"@
            && "ADD"@ != "HEAD"@,
{
    reveal_strlit("INPUT");
    reveal_strlit("CONV");
    reveal_strlit("AFFINE");
    reveal_strlit("PRELU_BIAS");
    reveal_strlit("BIAS");
    reveal_strlit("SUBSAMPLE");
    reveal_strlit("ADD");
    reveal_strlit("HEAD");
    assert("INPUT"@[0] == 'I' && "CONV"@[0] == 'C' && "PRELU_BIAS"@[0] == 'P' && "BIAS"@[0] == 'B' && "HEAD"@[0] == 'H'
        && "SUBSAMPLE"@[0] == 'S' && "AFFINE"@[1] == 'F' && "ADD"@[1] == 'D' && "AFFINE"@[0] == 'A' && "ADD"@[0] == 'A');
}

proof fn input_keeps<
    A: Fn(u32, u32) -> u32,
    M: Fn(u32, u32) -> u32,
    E: Fn(&String, &String, &String, &String) -> Result<(), Error>,
    D: Fn(&String, &Vec<u16>, &Vec<u16>, usize) -> Result<Vec<u16>, Error>,
    B: Fn(&String) -> Result<Vec<u16>, Error>,
    F: Fn(&String) -> Result<Vec<u32>, Error>,
>(
    ops: &Ops<A, M>,
    host: &Host<E, D, B, F>,
    dir: Seq<char>,
    given: Option<Seq<u16>>,
    o: OpView,
    x: RunView,
    c: CacheView,
    z: After,
)
    requires
        input_to(host, dir, o, given, x, c, z),
        o.name == "INPUT"@,
    ensures
        grows(c, z.cache),
        z.r is Ok ==> cached(o, given is Some, z.cache),
{
    names_differ();
}

proof fn conv_keeps<
    A: Fn(u32, u32) -> u32,
    M: Fn(u32, u32) -> u32,
    E: Fn(&String, &String, &String, &String) -> Result<(), Error>,
    D: Fn(&String, &Vec<u16>, &Vec<u16>, usize) -> Result<Vec<u16>, Error>,
    B: Fn(&String) -> Result<Vec<u16>, Error>,
    F: Fn(&String) -> Result<Vec<u32>, Error>,
>(
    ops: &Ops<A, M>,
    host: &Host<E, D, B, F>,
    dir: Seq<char>,
    given: Option<Seq<u16>>,
    o: OpView,
    x: RunView,
    c: CacheView,
    z: After,
)
    requires
        conv_op_to(ops, host, dir, o, x, c, z),
        o.name == "CONV"@,
    ensures
        grows(c, z.cache),
        z.r is Ok ==> cached(o, given is Some, z.cache),
{
    names_differ();
}

proof fn affine_keeps<
    A: Fn(u32, u32) -> u32,
    M: Fn(u32, u32) -> u32,
    E: Fn(&String, &String, &String, &String) -> Result<(), Error>,
    D: Fn(&String, &Vec<u16>, &Vec<u16>, usize) -> Result<Vec<u16>, Error>,
    B: Fn(&String) -> Result<Vec<u16>, Error>,
    F: Fn(&String) -> Result<Vec<u32>, Error>,
>(
    ops: &Ops<A, M>,
    host: &Host<E, D, B, F>,
    dir: Seq<char>,
    given: Option<Seq<u16>>,
    o: OpView,
    x: RunView,
    c: CacheView,
    z: After,
)
    requires
        affine_to(ops, host, dir, o, x, c, z),
        o.name == "AFFINE"@,
    ensures
        grows(c, z.cache),
        z.r is Ok ==> cached(o, given is Some, z.cache),
{
    names_differ();
}

proof fn prelu_keeps<
    A: Fn(u32, u32) -> u32,
    M: Fn(u32, u32) -> u32,
    E: Fn(&String, &String, &String, &String) -> Result<(), Error>,
    D: Fn(&String, &Vec<u16>, &Vec<u16>, usize) -> Result<Vec<u16>, Error>,
    B: Fn(&String) -> Result<Vec<u16>, Error>,
    F: Fn(&String) -> Result<Vec<u32>, Error>,
>(
    ops: &Ops<A, M>,
    host: &Host<E, D, B, F>,
    dir: Seq<char>,
    given: Option<Seq<u16>>,
    o: OpView,
    x: RunView,
    c: CacheView,
    z: After,
)
    requires
        prelu_to(ops, host, dir, o, x, c, z),
        o.name == "PRELU_BIAS"@,
    ensures
        grows(c, z.cache),
        z.r is Ok ==> cached(o, given is Some, z.cache),
{
    names_differ();
}

proof fn bias_keeps<
    A: Fn(u32, u32) -> u32,
    M: Fn(u32, u32) -> u32,
    E: Fn(&String, &String, &String, &String) -> Result<(), Error>,
    D: Fn(&String, &Vec<u16>, &Vec<u16>, usize) -> Result<Vec<u16>, Error>,
    B: Fn(&String) -> Result<Vec<u16>, Error>,
    F: Fn(&String) -> Result<Vec<u32>, Error>,
>(
    ops: &Ops<A, M>,
    host: &Host<E, D, B, F>,
    dir: Seq<char>,
    given: Option<Seq<u16>>,
    o: OpView,
    x: RunView,
    c: CacheView,
    z: After,
)
    requires
        bias_to(ops, host, dir, o, x, c, z),
        o.name == "BIAS"@,
    ensures
        grows(c, z.cache),
        z.r is Ok ==> cached(o, given is Some, z.cache),
{
    names_differ();
}

proof fn head_keeps<
    A: Fn(u32, u32) -> u32,
    M: Fn(u32, u32) -> u32,
    E: Fn(&String, &String, &String, &String) -> Result<(), Error>,
    D: Fn(&String, &Vec<u16>, &Vec<u16>, usize) -> Result<Vec<u16>, Error>,
    B: Fn(&String) -> Result<Vec<u16>, Error>,
    F: Fn(&String) -> Result<Vec<u32>, Error>,
>(
    ops: &Ops<A, M>,
    host: &Host<E, D, B, F>,
    dir: Seq<char>,
    given: Option<Seq<u16>>,
    o: OpView,
    x: RunView,
    c: CacheView,
    z: After,
)
    requires
        head_to(ops, host, dir, o, x, c, z),
        o.name == "HEAD"@,
    ensures
        grows(c, z.cache),
        z.r is Ok ==> cached(o, given is Some, z.cache),
{
    names_differ();
}

/// An operation keeps what is cached, and leaves cached what it read.
proof fn op_keeps<
    A: Fn(u32, u32) -> u32,
    M: Fn(u32, u32) -> u32,
    E: Fn(&String, &String, &String, &String) -> Result<(), Error>,
    D: Fn(&String, &Vec<u16>, &Vec<u16>, usize) -> Result<Vec<u16>, Error>,
    B: Fn(&String) -> Result<Vec<u16>, Error>,
    F: Fn(&String) -> Result<Vec<u32>, Error>,
>(
    ops: &Ops<A, M>,
    host: &Host<E, D, B, F>,
    dir: Seq<char>,
    given: Option<Seq<u16>>,
    o: OpView,
    x: RunView,
    c: CacheView,
    z: After,
)
    requires
        op_to(ops, host, dir, given, o, x, c, z),
    ensures
        grows(c, z.cache),
        z.r is Ok ==> cached(o, given is Some, z.cache),
{
    names_differ();
    if o.name == "INPUT"@ {
        input_keeps(ops, host, dir, given, o, x, c, z);
    } else if o.name == "CONV"@ {
        conv_keeps(ops, host, dir, given, o, x, c, z);
    } else if o.name == "AFFINE"@ {
        affine_keeps(ops, host, dir, given, o, x, c, z);
    } else if o.name == "PRELU_BIAS"@ {
        prelu_keeps(ops, host, dir, given, o, x, c, z);
    } else if o.name == "BIAS"@ {
        bias_keeps(ops, host, dir, given, o, x, c, z);
    } else if o.name == "HEAD"@ {
        head_keeps(ops, host, dir, given, o, x, c, z);
    }
}

proof fn trace_keeps<
    A: Fn(u32, u32) -> u32,
    M: Fn(u32, u32) -> u32,
    E: Fn(&String, &String, &String, &String) -> Result<(), Error>,
    D: Fn(&String, &Vec<u16>, &Vec<u16>, usize) -> Result<Vec<u16>, Error>,
    B: Fn(&String) -> Result<Vec<u16>, Error>,
    F: Fn(&String) -> Result<Vec<u32>, Error>,
>(
    ops: &Ops<A, M>,
    host: &Host<E, D, B, F>,
    dir: Seq<char>,
    given: Option<Seq<u16>>,
    plan: Seq<OpView>,
    c: CacheView,
    tr: Seq<(RunView, CacheView)>,
    n: int,
    k: int,
)
    requires
        trace(ops, host, dir, given, plan, c, tr, n),
        0 <= k <= n,
    ensures
        grows(c, tr[k].1),
        forall|i: int| 0 <= i < k ==> cached(#[trigger] plan[i], given is Some, tr[k].1),
    decreases k,
{
    if k > 0 {
        trace_keeps(ops, host, dir, given, plan, c, tr, n, k - 1);
        let z = After { r: Ok(tr[k - 1 + 1].0), cache: tr[k - 1 + 1].1 };
        op_keeps(ops, host, dir, given, plan[k - 1], tr[k - 1].0, tr[k - 1].1, z);
        grows_through(c, tr[k - 1].1, z.cache);
        assert forall|i: int| 0 <= i < k implies cached(#[trigger] plan[i], given is Some, tr[k].1) by {
            if i < k - 1 {
                assert(cached(plan[i], given is Some, tr[k - 1].1));
            }
        }
    }
}

/// A forward keeps what is cached, and one that succeeds leaves every file
/// of the plan cached.
pub proof fn a_forward_leaves_its_files_cached<
    A: Fn(u32, u32) -> u32,
    M: Fn(u32, u32) -> u32,
    E: Fn(&String, &String, &String, &String) -> Result<(), Error>,
    D: Fn(&String, &Vec<u16>, &Vec<u16>, usize) -> Result<Vec<u16>, Error>,
    B: Fn(&String) -> Result<Vec<u16>, Error>,
    F: Fn(&String) -> Result<Vec<u32>, Error>,
>(
    ops: &Ops<A, M>,
    host: &Host<E, D, B, F>,
    dir: Seq<char>,
    given: Option<Seq<u16>>,
    plan: Seq<OpView>,
    c: CacheView,
    r: Result<Seq<u32>, Error>,
    d: CacheView,
)
    requires
        forward_to(ops, host, dir, given, plan, c, r, d),
    ensures
        grows(c, d),
        r is Ok ==> all_cached(plan, given is Some, d),
{
    let (tr, n) = choose|tr: Seq<(RunView, CacheView)>, n: int| #[trigger]
        trace(ops, host, dir, given, plan, c, tr, n) && if n < plan.len() {
            r matches Err(e) && op_to(
                ops,
                host,
                dir,
                given,
                plan[n],
                tr.last().0,
                tr.last().1,
                After { r: Err(e), cache: d },
            )
        } else if tr.last().0.embed.len() == 0 {
            d == tr.last().1 && (r matches Err(e) && plan_error(e, "plan produced no embedding (no HEAD op)"@))
        } else {
            d == tr.last().1 && r == Ok::<Seq<u32>, Error>(tr.last().0.embed)
        };
    trace_keeps(ops, host, dir, given, plan, c, tr, n, n);
    if n < plan.len() {
        let z = After { r: Err(r->Err_0), cache: d };
        op_keeps(ops, host, dir, given, plan[n], tr.last().0, tr.last().1, z);
        grows_through(c, tr.last().1, d);
    }
}

proof fn input_asks_nothing<
    A: Fn(u32, u32) -> u32,
    M: Fn(u32, u32) -> u32,
    E: Fn(&String, &String, &String, &String) -> Result<(), Error>,
    D: Fn(&String, &Vec<u16>, &Vec<u16>, usize) -> Result<Vec<u16>, Error>,
    B: Fn(&String) -> Result<Vec<u16>, Error>,
    F: Fn(&String) -> Result<Vec<u32>, Error>,
    B2: Fn(&String) -> Result<Vec<u16>, Error>,
    F2: Fn(&String) -> Result<Vec<u32>, Error>,
>(
    ops: &Ops<A, M>,
    host: &Host<E, D, B, F>,
    other: &Host<E, D, B2, F2>,
    dir: Seq<char>,
    given: Option<Seq<u16>>,
    o: OpView,
    x: RunView,
    c: CacheView,
    z: After,
)
    requires
        input_to(host, dir, o, given, x, c, z),
        o.name == "INPUT"@,
        cached(o, given is Some, c),
        other.ensure == host.ensure,
        other.run == host.run,
    ensures
        z.cache == c,
        input_to(other, dir, o, given, x, c, z),
{
    names_differ();
    if dims_of(o) is Ok && countable(dims_of(o)->Ok_0) && given is None && o.gets("file"@) is Ok {
        let f = o.gets("file"@)->Ok_0;
        assert(other.fetches16(dir, f, c, Ok(c.halves[f]), c));
    }
}

proof fn ready_asks_nothing<
    A: Fn(u32, u32) -> u32,
    M: Fn(u32, u32) -> u32,
    E: Fn(&String, &String, &String, &String) -> Result<(), Error>,
    D: Fn(&String, &Vec<u16>, &Vec<u16>, usize) -> Result<Vec<u16>, Error>,
    B: Fn(&String) -> Result<Vec<u16>, Error>,
    F: Fn(&String) -> Result<Vec<u32>, Error>,
    B2: Fn(&String) -> Result<Vec<u16>, Error>,
    F2: Fn(&String) -> Result<Vec<u32>, Error>,
>(
    ops: &Ops<A, M>,
    host: &Host<E, D, B, F>,
    other: &Host<E, D, B2, F2>,
    dir: Seq<char>,
    o: OpView,
    k: ConvKeys,
    x: RunView,
    c: CacheView,
    z: After,
)
    requires
        conv_ready(ops, host, dir, o, k, x, c, z),
        has_half(c, o, "wt"@),
        other.run == host.run,
    ensures
        z.cache == c,
        conv_ready(ops, other, dir, o, k, x, c, z),
{
    if o.gets("wt"@) is Ok && x.bufs.contains_key(k.input) {
        let f = o.gets("wt"@)->Ok_0;
        let w = c.halves[f];
        assert(other.fetches16(dir, f, c, Ok(w), c));
        let input = sliced(&x.bufs[k.input], k.c0 as int, k.icg as int / 8, k.wp as int);
        let n = k.oc * k.oh * k.owp;
        assert forall|r: Result<Seq<u16>, Error>| host.ran(k.xclbin, input, w, n, r) == #[trigger] other.ran(
            k.xclbin,
            input,
            w,
            n,
            r,
        ) by {
        }
        if conv_run(ops, host, o, k, w, x, c, z) && n <= usize::MAX {
            if exists|e: Error| #[trigger] host.ran(k.xclbin, input, w, n, Err(e)) && z == (After { r: Err(e), cache: c }) {
                let e = choose|e: Error| #[trigger]
                    host.ran(k.xclbin, input, w, n, Err(e)) && z == (After { r: Err(e), cache: c });
                assert(other.ran(k.xclbin, input, w, n, Err(e)));
            } else {
                let v = choose|v: Seq<u16>| #[trigger]
                    host.ran(k.xclbin, input, w, n, Ok(v)) && conv_end(ops, o, k, v, x, c, z);
                assert(other.ran(k.xclbin, input, w, n, Ok(v)));
            }
            assert(conv_run(ops, other, o, k, w, x, c, z));
        }
    }
}

proof fn conv_asks_nothing<
    A: Fn(u32, u32) -> u32,
    M: Fn(u32, u32) -> u32,
    E: Fn(&String, &String, &String, &String) -> Result<(), Error>,
    D: Fn(&String, &Vec<u16>, &Vec<u16>, usize) -> Result<Vec<u16>, Error>,
    B: Fn(&String) -> Result<Vec<u16>, Error>,
    F: Fn(&String) -> Result<Vec<u32>, Error>,
    B2: Fn(&String) -> Result<Vec<u16>, Error>,
    F2: Fn(&String) -> Result<Vec<u32>, Error>,
>(
    ops: &Ops<A, M>,
    host: &Host<E, D, B, F>,
    other: &Host<E, D, B2, F2>,
    dir: Seq<char>,
    given: Option<Seq<u16>>,
    o: OpView,
    x: RunView,
    c: CacheView,
    z: After,
)
    requires
        conv_op_to(ops, host, dir, o, x, c, z),
        o.name == "CONV"@,
        cached(o, given is Some, c),
        other.ensure == host.ensure,
        other.run == host.run,
    ensures
        z.cache == c,
        conv_op_to(ops, other, dir, o, x, c, z),
{
    names_differ();
    if conv_keys(o) is Ok {
        let k = conv_keys(o)->Ok_0;
        let (xclbin, insts) = (joined(dir, k.xclbin), joined(dir, k.insts));
        assert forall|r: Result<(), Error>| host.made(k.xclbin, xclbin, insts, k.kernel, r) == #[trigger] other.made(
            k.xclbin,
            xclbin,
            insts,
            k.kernel,
            r,
        ) by {
        }
        if o.gets("wt"@) is Ok {
            let f = o.gets("wt"@)->Ok_0;
            assert(other.fetches16(dir, f, c, Ok(c.halves[f]), c));
        }
        if host.made(k.xclbin, xclbin, insts, k.kernel, Ok(())) && conv_ready(ops, host, dir, o, k, x, c, z) {
            ready_asks_nothing(ops, host, other, dir, o, k, x, c, z);
            assert(other.made(k.xclbin, xclbin, insts, k.kernel, Ok(())));
        } else {
            let e = choose|e: Error| #[trigger]
                host.made(k.xclbin, xclbin, insts, k.kernel, Err(e)) && z == (After { r: Err(e), cache: c });
            assert(other.made(k.xclbin, xclbin, insts, k.kernel, Err(e)));
        }
    }
}

proof fn affine_asks_nothing<
    A: Fn(u32, u32) -> u32,
    M: Fn(u32, u32) -> u32,
    E: Fn(&String, &String, &String, &String) -> Result<(), Error>,
    D: Fn(&String, &Vec<u16>, &Vec<u16>, usize) -> Result<Vec<u16>, Error>,
    B: Fn(&String) -> Result<Vec<u16>, Error>,
    F: Fn(&String) -> Result<Vec<u32>, Error>,
    B2: Fn(&String) -> Result<Vec<u16>, Error>,
    F2: Fn(&String) -> Result<Vec<u32>, Error>,
>(
    ops: &Ops<A, M>,
    host: &Host<E, D, B, F>,
    other: &Host<E, D, B2, F2>,
    dir: Seq<char>,
    given: Option<Seq<u16>>,
    o: OpView,
    x: RunView,
    c: CacheView,
    z: After,
)
    requires
        affine_to(ops, host, dir, o, x, c, z),
        o.name == "AFFINE"@,
        cached(o, given is Some, c),
        other.ensure == host.ensure,
        other.run == host.run,
    ensures
        z.cache == c,
        affine_to(ops, other, dir, o, x, c, z),
{
    names_differ();
    if o.gets("scale"@) is Ok && o.gets("shift"@) is Ok {
        let (f, g) = (o.gets("scale"@)->Ok_0, o.gets("shift"@)->Ok_0);
        assert(other.fetches16(dir, f, c, Ok(c.halves[f]), c));
        assert(other.fetches16(dir, g, c, Ok(c.halves[g]), c));
    }
}

proof fn prelu_asks_nothing<
    A: Fn(u32, u32) -> u32,
    M: Fn(u32, u32) -> u32,
    E: Fn(&String, &String, &String, &String) -> Result<(), Error>,
    D: Fn(&String, &Vec<u16>, &Vec<u16>, usize) -> Result<Vec<u16>, Error>,
    B: Fn(&String) -> Result<Vec<u16>, Error>,
    F: Fn(&String) -> Result<Vec<u32>, Error>,
    B2: Fn(&String) -> Result<Vec<u16>, Error>,
    F2: Fn(&String) -> Result<Vec<u32>, Error>,
>(
    ops: &Ops<A, M>,
    host: &Host<E, D, B, F>,
    other: &Host<E, D, B2, F2>,
    dir: Seq<char>,
    given: Option<Seq<u16>>,
    o: OpView,
    x: RunView,
    c: CacheView,
    z: After,
)
    requires
        prelu_to(ops, host, dir, o, x, c, z),
        o.name == "PRELU_BIAS"@,
        cached(o, given is Some, c),
        other.ensure == host.ensure,
        other.run == host.run,
    ensures
        z.cache == c,
        prelu_to(ops, other, dir, o, x, c, z),
{
    names_differ();
    if o.gets("alpha"@) is Ok {
        let f = o.gets("alpha"@)->Ok_0;
        assert(other.fetches16(dir, f, c, Ok(c.halves[f]), c));
        if o.gets("bias"@) is Ok {
            let g = o.gets("bias"@)->Ok_0;
            assert(other.fetches16(dir, g, c, Ok(c.halves[g]), c));
        }
    }
}

proof fn bias_asks_nothing<
    A: Fn(u32, u32) -> u32,
    M: Fn(u32, u32) -> u32,
    E: Fn(&String, &String, &String, &String) -> Result<(), Error>,
    D: Fn(&String, &Vec<u16>, &Vec<u16>, usize) -> Result<Vec<u16>, Error>,
    B: Fn(&String) -> Result<Vec<u16>, Error>,
    F: Fn(&String) -> Result<Vec<u32>, Error>,
    B2: Fn(&String) -> Result<Vec<u16>, Error>,
    F2: Fn(&String) -> Result<Vec<u32>, Error>,
>(
    ops: &Ops<A, M>,
    host: &Host<E, D, B, F>,
    other: &Host<E, D, B2, F2>,
    dir: Seq<char>,
    given: Option<Seq<u16>>,
    o: OpView,
    x: RunView,
    c: CacheView,
    z: After,
)
    requires
        bias_to(ops, host, dir, o, x, c, z),
        o.name == "BIAS"@,
        cached(o, given is Some, c),
        other.ensure == host.ensure,
        other.run == host.run,
    ensures
        z.cache == c,
        bias_to(ops, other, dir, o, x, c, z),
{
    names_differ();
    if o.gets("bias"@) is Ok {
        let f = o.gets("bias"@)->Ok_0;
        assert(other.fetches16(dir, f, c, Ok(c.halves[f]), c));
    }
}

proof fn head_asks_nothing<
    A: Fn(u32, u32) -> u32,
    M: Fn(u32, u32) -> u32,
    E: Fn(&String, &String, &String, &String) -> Result<(), Error>,
    D: Fn(&String, &Vec<u16>, &Vec<u16>, usize) -> Result<Vec<u16>, Error>,
    B: Fn(&String) -> Result<Vec<u16>, Error>,
    F: Fn(&String) -> Result<Vec<u32>, Error>,
    B2: Fn(&String) -> Result<Vec<u16>, Error>,
    F2: Fn(&String) -> Result<Vec<u32>, Error>,
>(
    ops: &Ops<A, M>,
    host: &Host<E, D, B, F>,
    other: &Host<E, D, B2, F2>,
    dir: Seq<char>,
    given: Option<Seq<u16>>,
    o: OpView,
    x: RunView,
    c: CacheView,
    z: After,
)
    requires
        head_to(ops, host, dir, o, x, c, z),
        o.name == "HEAD"@,
        cached(o, given is Some, c),
        other.ensure == host.ensure,
        other.run == host.run,
    ensures
        z.cache == c,
        head_to(ops, other, dir, o, x, c, z),
{
    names_differ();
    if o.gets("bT"@) is Ok && o.gets("b2"@) is Ok {
        let (f, g) = (o.gets("bT"@)->Ok_0, o.gets("b2"@)->Ok_0);
        assert(other.fetches32(f, other.widened_file(joined(dir, f)), c, Ok(c.reals[f]), c));
        assert(other.fetches32(g, other.real_file(joined(dir, g)), c, Ok(c.reals[g]), c));
    }
}

/// A forward whose files are all cached asks its host for none: it comes to
/// the same whatever the files hold, and leaves the cache as it is.
pub proof fn a_cached_forward_reads_nothing<
    A: Fn(u32, u32) -> u32,
    M: Fn(u32, u32) -> u32,
    E: Fn(&String, &String, &String, &String) -> Result<(), Error>,
    D: Fn(&String, &Vec<u16>, &Vec<u16>, usize) -> Result<Vec<u16>, Error>,
    B: Fn(&String) -> Result<Vec<u16>, Error>,
    F: Fn(&String) -> Result<Vec<u32>, Error>,
    B2: Fn(&String) -> Result<Vec<u16>, Error>,
    F2: Fn(&String) -> Result<Vec<u32>, Error>,
>(
    ops: &Ops<A, M>,
    host: &Host<E, D, B, F>,
    other: &Host<E, D, B2, F2>,
    dir: Seq<char>,
    given: Option<Seq<u16>>,
    plan: Seq<OpView>,
    c: CacheView,
    r: Result<Seq<u32>, Error>,
    d: CacheView,
)
    requires
        forward_to(ops, host, dir, given, plan, c, r, d),
        all_cached(plan, given is Some, c),
        other.ensure == host.ensure,
        other.run == host.run,
    ensures
        d == c,
        forward_to(ops, other, dir, given, plan, c, r, c),
{
    let (tr, n) = choose|tr: Seq<(RunView, CacheView)>, n: int| #[trigger]
        trace(ops, host, dir, given, plan, c, tr, n) && if n < plan.len() {
            r matches Err(e) && op_to(
                ops,
                host,
                dir,
                given,
                plan[n],
                tr.last().0,
                tr.last().1,
                After { r: Err(e), cache: d },
            )
        } else if tr.last().0.embed.len() == 0 {
            d == tr.last().1 && (r matches Err(e) && plan_error(e, "plan produced no embedding (no HEAD op)"@))
        } else {
            d == tr.last().1 && r == Ok::<Seq<u32>, Error>(tr.last().0.embed)
        };
    trace_asks_nothing(ops, host, other, dir, given, plan, c, tr, n, n);
    assert(tr.take(n + 1) =~= tr);
    if n < plan.len() {
        let z = After { r: Err(r->Err_0), cache: d };
        op_asks_nothing(ops, host, other, dir, given, plan[n], tr.last().0, c, z);
    }
}

proof fn trace_asks_nothing<
    A: Fn(u32, u32) -> u32,
    M: Fn(u32, u32) -> u32,
    E: Fn(&String, &String, &String, &String) -> Result<(), Error>,
    D: Fn(&String, &Vec<u16>, &Vec<u16>, usize) -> Result<Vec<u16>, Error>,
    B: Fn(&String) -> Result<Vec<u16>, Error>,
    F: Fn(&String) -> Result<Vec<u32>, Error>,
    B2: Fn(&String) -> Result<Vec<u16>, Error>,
    F2: Fn(&String) -> Result<Vec<u32>, Error>,
>(
    ops: &Ops<A, M>,
    host: &Host<E, D, B, F>,
    other: &Host<E, D, B2, F2>,
    dir: Seq<char>,
    given: Option<Seq<u16>>,
    plan: Seq<OpView>,
    c: CacheView,
    tr: Seq<(RunView, CacheView)>,
    n: int,
    k: int,
)
    requires
        trace(ops, host, dir, given, plan, c, tr, n),
        all_cached(plan, given is Some, c),
        other.ensure == host.ensure,
        other.run == host.run,
        0 <= k <= n,
    ensures
        tr[k].1 == c,
        trace(ops, other, dir, given, plan, c, tr.take(k + 1), k),
    decreases k,
{
    let t = tr.take(k + 1);
    if k > 0 {
        trace_asks_nothing(ops, host, other, dir, given, plan, c, tr, n, k - 1);
        let s = tr.take(k);
        let z = After { r: Ok(tr[k - 1 + 1].0), cache: tr[k - 1 + 1].1 };
        op_asks_nothing(ops, host, other, dir, given, plan[k - 1], tr[k - 1].0, c, z);
        assert forall|i: int| #![trigger t[i + 1]] 0 <= i < k implies op_to(
            ops,
            other,
            dir,
            given,
            plan[i],
            t[i].0,
            t[i].1,
            After { r: Ok(t[i + 1].0), cache: t[i + 1].1 },
        ) by {
            if i < k - 1 {
                assert(s[i + 1] == t[i + 1] && s[i] == t[i]);
            } else {
                assert(t[i + 1] == tr[k] && t[i] == tr[k - 1]);
            }
        }
    }
}

proof fn op_asks_nothing<
    A: Fn(u32, u32) -> u32,
    M: Fn(u32, u32) -> u32,
    E: Fn(&String, &String, &String, &String) -> Result<(), Error>,
    D: Fn(&String, &Vec<u16>, &Vec<u16>, usize) -> Result<Vec<u16>, Error>,
    B: Fn(&String) -> Result<Vec<u16>, Error>,
    F: Fn(&String) -> Result<Vec<u32>, Error>,
    B2: Fn(&String) -> Result<Vec<u16>, Error>,
    F2: Fn(&String) -> Result<Vec<u32>, Error>,
>(
    ops: &Ops<A, M>,
    host: &Host<E, D, B, F>,
    other: &Host<E, D, B2, F2>,
    dir: Seq<char>,
    given: Option<Seq<u16>>,
    o: OpView,
    x: RunView,
    c: CacheView,
    z: After,
)
    requires
        op_to(ops, host, dir, given, o, x, c, z),
        cached(o, given is Some, c),
        other.ensure == host.ensure,
        other.run == host.run,
    ensures
        z.cache == c,
        op_to(ops, other, dir, given, o, x, c, z),
{
    names_differ();
    if o.name == "INPUT"@ {
        input_asks_nothing(ops, host, other, dir, given, o, x, c, z);
    } else if o.name == "CONV"@ {
        conv_asks_nothing(ops, host, other, dir, given, o, x, c, z);
    } else if o.name == "AFFINE"@ {
        affine_asks_nothing(ops, host, other, dir, given, o, x, c, z);
    } else if o.name == "PRELU_BIAS"@ {
        prelu_asks_nothing(ops, host, other, dir, given, o, x, c, z);
    } else if o.name == "BIAS"@ {
        bias_asks_nothing(ops, host, other, dir, given, o, x, c, z);
    } else if o.name == "HEAD"@ {
        head_asks_nothing(ops, host, other, dir, given, o, x, c, z);
    }
}

} // verus!
