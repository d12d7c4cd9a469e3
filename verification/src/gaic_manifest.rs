//! The cropping model's plain bundle: a `manifest.txt` of positional
//! records naming the compiled kernels, the packed weights and the
//! host-side parameters, which lie in files of their own.

use crate::bytes::{le32, read32};
use crate::gaic_bundle::{
    check_network, conv_views, find_kernel, kernel_in, kernel_views, network_fault, opt_view, says, shows, ConvSpec,
    ConvView, DenseSpec, DenseView, Error, Fc1Spec, Fc1View, KernelSpec, KernelView, RefSpec, RefView,
};
use crate::manifest::{join, joined};
use crate::text::{
    cat2, cat3, cat4, cat5, chars_of, decimal, decimal_of, denotes_real, is_real, lines, quoted, quoted_text, same,
    split_lines, split_words, texts, words, FromText,
};
use vstd::prelude::*;

verus! {

pub const VERSION: u32 = 1;

// ----------------------------------------------------------------------------
// Lines
// ----------------------------------------------------------------------------

/// The message of an error at line `line`.
pub open spec fn at(line: nat, msg: Seq<char>) -> Seq<char> {
    "manifest.txt:"@ + decimal(line) + ": "@ + msg
}

/// The number `s` denotes.
pub open spec fn num<T: FromText>(line: nat, s: Seq<char>) -> Result<T, Seq<char>> {
    match T::from_text(s) {
        Some(v) => Ok(v),
        None => Err(at(line, "not a number: "@ + quoted_text(s))),
    }
}

/// The real number `s` denotes, as written.
pub open spec fn real_num(line: nat, s: Seq<char>) -> Result<Seq<char>, Seq<char>> {
    if is_real(s) {
        Ok(s)
    } else {
        Err(at(line, "not a number: "@ + quoted_text(s)))
    }
}

/// Why a record has not `n` fields.
pub open spec fn count_fault(line: nat, t: Seq<Seq<char>>, n: nat) -> Seq<char> {
    at(line, t[0] + ": "@ + decimal(t.len()) + " fields, expected "@ + decimal(n))
}

fn bad(line: usize, msg: &str) -> (r: Error)
    ensures
        says(r, at(line as nat, msg@)),
{
    let n = decimal_of(line as u128);
    Error::Bundle(cat4("manifest.txt:", n.as_str(), ": ", msg))
}

fn read_num<T: FromText>(line: usize, s: &str) -> (r: Result<T, Error>)
    ensures
        match (r, num::<T>(line as nat, s@)) {
            (Ok(v), Ok(w)) => v == w,
            (Err(e), Err(m)) => says(e, m),
            _ => false,
        },
{
    match T::parse_text(s) {
        Some(v) => Ok(v),
        None => {
            let q = quoted(s);
            let m = cat2("not a number: ", q.as_str());
            Err(bad(line, m.as_str()))
        },
    }
}

fn read_real(line: usize, s: &str) -> (r: Result<String, Error>)
    ensures
        shows(r, real_num(line as nat, s@)),
{
    if denotes_real(s) {
        Ok(s.to_owned())
    } else {
        let q = quoted(s);
        let m = cat2("not a number: ", q.as_str());
        Err(bad(line, m.as_str()))
    }
}

fn want(line: usize, t: &Vec<String>, n: usize) -> (r: Result<(), Error>)
    requires
        t.len() > 0,
    ensures
        match r {
            Ok(_) => t.len() == n,
            Err(e) => t.len() != n && says(e, count_fault(line as nat, texts(t@), n as nat)),
        },
{
    if t.len() == n {
        Ok(())
    } else {
        let a = decimal_of(t.len() as u128);
        let b = decimal_of(n as u128);
        let m = cat5(t[0].as_str(), ": ", a.as_str(), " fields, expected ", b.as_str());
        proof {
            assert(texts(t@)[0] == t@[0]@);
            assert(texts(t@).len() == t@.len());
        }
        Err(bad(line, m.as_str()))
    }
}

// ----------------------------------------------------------------------------
// Records
// ----------------------------------------------------------------------------

/// A compiled GEMM.
pub open spec fn kernel_line(dir: Seq<char>, line: nat, t: Seq<Seq<char>>) -> Result<KernelView, Seq<char>> {
    if t.len() != 11 {
        Err(count_fault(line, t, 11))
    } else {
        match (
            num::<usize>(line, t[5]),
            num::<usize>(line, t[6]),
            num::<usize>(line, t[7]),
            num::<usize>(line, t[8]),
            num::<usize>(line, t[9]),
            num::<usize>(line, t[10]),
        ) {
            (Err(e), _, _, _, _, _) => Err(e),
            (_, Err(e), _, _, _, _) => Err(e),
            (_, _, Err(e), _, _, _) => Err(e),
            (_, _, _, Err(e), _, _) => Err(e),
            (_, _, _, _, Err(e), _) => Err(e),
            (_, _, _, _, _, Err(e)) => Err(e),
            (Ok(m), Ok(k), Ok(n), Ok(a_elems), Ok(b_bytes), Ok(c_elems)) => Ok(
                KernelView {
                    key: t[1],
                    xclbin: joined(dir, t[2]),
                    insts: joined(dir, t[3]),
                    name: t[4],
                    m,
                    k,
                    n,
                    a_elems,
                    b_bytes,
                    c_elems,
                },
            ),
        }
    }
}

fn read_kernel(dir: &str, line: usize, t: &Vec<String>) -> (r: Result<KernelSpec, Error>)
    requires
        t.len() > 0,
    ensures
        shows(r, kernel_line(dir@, line as nat, texts(t@))),
{
    want(line, t, 11)?;
    assert(forall|i: int| 0 <= i < t@.len() ==> texts(t@)[i] == #[trigger] t@[i]@);
    let m: usize = read_num::<usize>(line, t[5].as_str())?;
    let k: usize = read_num::<usize>(line, t[6].as_str())?;
    let n: usize = read_num::<usize>(line, t[7].as_str())?;
    let a_elems: usize = read_num::<usize>(line, t[8].as_str())?;
    let b_bytes: usize = read_num::<usize>(line, t[9].as_str())?;
    let c_elems: usize = read_num::<usize>(line, t[10].as_str())?;
    Ok(
        KernelSpec {
            key: t[1].clone(),
            xclbin: join(dir, t[2].as_str()),
            insts: join(dir, t[3].as_str()),
            name: t[4].clone(),
            m,
            k,
            n,
            a_elems,
            b_bytes,
            c_elems,
        },
    )
}

/// A convolution.
pub open spec fn conv_line(dir: Seq<char>, line: nat, t: Seq<Seq<char>>) -> Result<ConvView, Seq<char>> {
    if t.len() != 12 {
        Err(count_fault(line, t, 12))
    } else {
        match (
            num::<usize>(line, t[3]),
            num::<usize>(line, t[4]),
            num::<u8>(line, t[5]),
            num::<usize>(line, t[6]),
            num::<usize>(line, t[7]),
            num::<u8>(line, t[8]),
            num::<usize>(line, t[9]),
        ) {
            (Err(e), _, _, _, _, _, _) => Err(e),
            (_, Err(e), _, _, _, _, _) => Err(e),
            (_, _, Err(e), _, _, _, _) => Err(e),
            (_, _, _, Err(e), _, _, _) => Err(e),
            (_, _, _, _, Err(e), _, _) => Err(e),
            (_, _, _, _, _, Err(e), _) => Err(e),
            (_, _, _, _, _, _, Err(e)) => Err(e),
            (Ok(c), Ok(oc), Ok(pool_before), Ok(m_chunk), Ok(p), Ok(window), Ok(d)) => Ok(
                ConvView {
                    name: t[1],
                    kernel: t[2],
                    c,
                    oc,
                    pool_before: pool_before != 0,
                    m_chunk,
                    p,
                    window: window != 0,
                    d,
                    b: joined(dir, t[10]),
                    bias: joined(dir, t[11]),
                },
            ),
        }
    }
}

fn read_conv(dir: &str, line: usize, t: &Vec<String>) -> (r: Result<ConvSpec, Error>)
    requires
        t.len() > 0,
    ensures
        shows(r, conv_line(dir@, line as nat, texts(t@))),
{
    want(line, t, 12)?;
    assert(forall|i: int| 0 <= i < t@.len() ==> texts(t@)[i] == #[trigger] t@[i]@);
    let c: usize = read_num::<usize>(line, t[3].as_str())?;
    let oc: usize = read_num::<usize>(line, t[4].as_str())?;
    let pool_before: u8 = read_num::<u8>(line, t[5].as_str())?;
    let m_chunk: usize = read_num::<usize>(line, t[6].as_str())?;
    let p: usize = read_num::<usize>(line, t[7].as_str())?;
    let window: u8 = read_num::<u8>(line, t[8].as_str())?;
    let d: usize = read_num::<usize>(line, t[9].as_str())?;
    Ok(
        ConvSpec {
            name: t[1].clone(),
            kernel: t[2].clone(),
            c,
            oc,
            pool_before: pool_before != 0,
            m_chunk,
            p,
            window: window != 0,
            d,
            b: join(dir, t[10].as_str()),
            bias: join(dir, t[11].as_str()),
        },
    )
}

/// The reduction of the feature maps.
pub open spec fn dimred_line(dir: Seq<char>, line: nat, t: Seq<Seq<char>>) -> Result<DenseView, Seq<char>> {
    if t.len() != 5 {
        Err(count_fault(line, t, 5))
    } else {
        match (
            num::<usize>(line, t[3]),
            num::<usize>(line, t[4]),
        ) {
            (Err(e), _) => Err(e),
            (_, Err(e)) => Err(e),
            (Ok(outputs), Ok(inputs)) => Ok(
                DenseView {
                    w: joined(dir, t[1]),
                    b: joined(dir, t[2]),
                    outputs,
                    inputs,
                },
            ),
        }
    }
}

fn read_dimred(dir: &str, line: usize, t: &Vec<String>) -> (r: Result<DenseSpec, Error>)
    requires
        t.len() > 0,
    ensures
        shows(r, dimred_line(dir@, line as nat, texts(t@))),
{
    want(line, t, 5)?;
    assert(forall|i: int| 0 <= i < t@.len() ==> texts(t@)[i] == #[trigger] t@[i]@);
    let outputs: usize = read_num::<usize>(line, t[3].as_str())?;
    let inputs: usize = read_num::<usize>(line, t[4].as_str())?;
    Ok(
        DenseSpec {
            w: join(dir, t[1].as_str()),
            b: join(dir, t[2].as_str()),
            outputs,
            inputs,
        },
    )
}

/// The first fully connected layer.
pub open spec fn fc1_line(dir: Seq<char>, line: nat, t: Seq<Seq<char>>) -> Result<Fc1View, Seq<char>> {
    if t.len() != 8 {
        Err(count_fault(line, t, 8))
    } else {
        match (
            num::<usize>(line, t[4]),
            num::<usize>(line, t[5]),
            num::<usize>(line, t[6]),
            num::<usize>(line, t[7]),
        ) {
            (Err(e), _, _, _) => Err(e),
            (_, Err(e), _, _) => Err(e),
            (_, _, Err(e), _) => Err(e),
            (_, _, _, Err(e)) => Err(e),
            (Ok(k), Ok(k_pad), Ok(n), Ok(m)) => Ok(
                Fc1View {
                    kernel: t[1],
                    b: joined(dir, t[2]),
                    bias: joined(dir, t[3]),
                    k,
                    k_pad,
                    n,
                    m,
                },
            ),
        }
    }
}

fn read_fc1(dir: &str, line: usize, t: &Vec<String>) -> (r: Result<Fc1Spec, Error>)
    requires
        t.len() > 0,
    ensures
        shows(r, fc1_line(dir@, line as nat, texts(t@))),
{
    want(line, t, 8)?;
    assert(forall|i: int| 0 <= i < t@.len() ==> texts(t@)[i] == #[trigger] t@[i]@);
    let k: usize = read_num::<usize>(line, t[4].as_str())?;
    let k_pad: usize = read_num::<usize>(line, t[5].as_str())?;
    let n: usize = read_num::<usize>(line, t[6].as_str())?;
    let m: usize = read_num::<usize>(line, t[7].as_str())?;
    Ok(
        Fc1Spec {
            kernel: t[1].clone(),
            b: join(dir, t[2].as_str()),
            bias: join(dir, t[3].as_str()),
            k,
            k_pad,
            n,
            m,
        },
    )
}

/// The second fully connected layer.
pub open spec fn fc2_line(dir: Seq<char>, line: nat, t: Seq<Seq<char>>) -> Result<DenseView, Seq<char>> {
    if t.len() != 5 {
        Err(count_fault(line, t, 5))
    } else {
        match (
            num::<usize>(line, t[3]),
            num::<usize>(line, t[4]),
        ) {
            (Err(e), _) => Err(e),
            (_, Err(e)) => Err(e),
            (Ok(inputs), Ok(outputs)) => Ok(
                DenseView {
                    w: joined(dir, t[1]),
                    b: joined(dir, t[2]),
                    inputs,
                    outputs,
                },
            ),
        }
    }
}

fn read_fc2(dir: &str, line: usize, t: &Vec<String>) -> (r: Result<DenseSpec, Error>)
    requires
        t.len() > 0,
    ensures
        shows(r, fc2_line(dir@, line as nat, texts(t@))),
{
    want(line, t, 5)?;
    assert(forall|i: int| 0 <= i < t@.len() ==> texts(t@)[i] == #[trigger] t@[i]@);
    let inputs: usize = read_num::<usize>(line, t[3].as_str())?;
    let outputs: usize = read_num::<usize>(line, t[4].as_str())?;
    Ok(
        DenseSpec {
            w: join(dir, t[1].as_str()),
            b: join(dir, t[2].as_str()),
            inputs,
            outputs,
        },
    )
}

/// The self-check image.
pub open spec fn ref_line(dir: Seq<char>, line: nat, t: Seq<Seq<char>>) -> Result<RefView, Seq<char>> {
    if t.len() != 7 {
        Err(count_fault(line, t, 7))
    } else {
        match (
            num::<usize>(line, t[2]),
            num::<usize>(line, t[3]),
            num::<usize>(line, t[4]),
            num::<usize>(line, t[5]),
            num::<usize>(line, t[6]),
        ) {
            (Err(e), _, _, _, _) => Err(e),
            (_, Err(e), _, _, _) => Err(e),
            (_, _, Err(e), _, _) => Err(e),
            (_, _, _, Err(e), _) => Err(e),
            (_, _, _, _, Err(e)) => Err(e),
            (Ok(w), Ok(h), Ok(n_anchors), Ok(src_w), Ok(src_h)) => Ok(
                RefView {
                    image: t[1],
                    w,
                    h,
                    n_anchors,
                    src_w,
                    src_h,
                },
            ),
        }
    }
}

fn read_ref(dir: &str, line: usize, t: &Vec<String>) -> (r: Result<RefSpec, Error>)
    requires
        t.len() > 0,
    ensures
        shows(r, ref_line(dir@, line as nat, texts(t@))),
{
    want(line, t, 7)?;
    assert(forall|i: int| 0 <= i < t@.len() ==> texts(t@)[i] == #[trigger] t@[i]@);
    let w: usize = read_num::<usize>(line, t[2].as_str())?;
    let h: usize = read_num::<usize>(line, t[3].as_str())?;
    let n_anchors: usize = read_num::<usize>(line, t[4].as_str())?;
    let src_w: usize = read_num::<usize>(line, t[5].as_str())?;
    let src_h: usize = read_num::<usize>(line, t[6].as_str())?;
    Ok(
        RefSpec {
            image: t[1].clone(),
            w,
            h,
            n_anchors,
            src_w,
            src_h,
        },
    )
}

/// The last layer's weights and bias; a fourth field is not read.
pub open spec fn fc3_line(dir: Seq<char>, line: nat, t: Seq<Seq<char>>) -> Result<(Seq<char>, Seq<char>), Seq<char>> {
    if t.len() != 4 {
        Err(count_fault(line, t, 4))
    } else {
        Ok((joined(dir, t[1]), joined(dir, t[2])))
    }
}

/// The size boxes are aligned to, and the scale of the maps.
pub open spec fn align_line(line: nat, t: Seq<Seq<char>>) -> Result<(usize, Seq<char>), Seq<char>> {
    if t.len() != 3 {
        Err(count_fault(line, t, 3))
    } else {
        match (num::<usize>(line, t[1]), real_num(line, t[2])) {
            (Err(e), _) => Err(e),
            (_, Err(e)) => Err(e),
            (Ok(size), Ok(scale)) => Ok((size, scale)),
        }
    }
}

/// What the lines read so far say; a later record of a kind that there is
/// one of replaces an earlier.
pub struct Table {
    pub version: Option<u32>,
    pub kernels: Seq<KernelView>,
    pub convs: Seq<ConvView>,
    pub f3: Option<Seq<char>>,
    pub f4: Option<Seq<char>>,
    pub dimred: Option<DenseView>,
    pub fc1: Option<Fc1View>,
    pub fc2: Option<DenseView>,
    pub fc3: Option<(Seq<char>, Seq<char>)>,
    pub align: Option<(usize, Seq<char>)>,
    pub reference: Option<RefView>,
}

impl Table {
    pub open spec fn empty() -> Table {
        Table {
            version: None,
            kernels: Seq::empty(),
            convs: Seq::empty(),
            f3: None,
            f4: None,
            dimred: None,
            fc1: None,
            fc2: None,
            fc3: None,
            align: None,
            reference: None,
        }
    }

    /// With the line number `line`, of the words `t`.
    pub open spec fn with(self, dir: Seq<char>, line: nat, t: Seq<Seq<char>>) -> Result<Table, Seq<char>> {
        if t.len() == 0 {
            Ok(self)
        } else if t[0] == "gaic"@ {
            if t.len() != 2 {
                Err(count_fault(line, t, 2))
            } else {
                match num::<u32>(line, t[1]) {
                    Err(e) => Err(e),
                    Ok(v) => Ok(Table { version: Some(v), ..self }),
                }
            }
        } else if t[0] == "kernel"@ {
            match kernel_line(dir, line, t) {
                Err(e) => Err(e),
                Ok(k) => Ok(Table { kernels: self.kernels.push(k), ..self }),
            }
        } else if t[0] == "conv"@ {
            match conv_line(dir, line, t) {
                Err(e) => Err(e),
                Ok(c) => Ok(Table { convs: self.convs.push(c), ..self }),
            }
        } else if t[0] == "f3"@ {
            if t.len() != 2 {
                Err(count_fault(line, t, 2))
            } else {
                Ok(Table { f3: Some(t[1]), ..self })
            }
        } else if t[0] == "f4"@ {
            if t.len() != 2 {
                Err(count_fault(line, t, 2))
            } else {
                Ok(Table { f4: Some(t[1]), ..self })
            }
        } else if t[0] == "dimred"@ {
            match dimred_line(dir, line, t) {
                Err(e) => Err(e),
                Ok(v) => Ok(Table { dimred: Some(v), ..self }),
            }
        } else if t[0] == "fc1"@ {
            match fc1_line(dir, line, t) {
                Err(e) => Err(e),
                Ok(v) => Ok(Table { fc1: Some(v), ..self }),
            }
        } else if t[0] == "fc2"@ {
            match fc2_line(dir, line, t) {
                Err(e) => Err(e),
                Ok(v) => Ok(Table { fc2: Some(v), ..self }),
            }
        } else if t[0] == "fc3"@ {
            match fc3_line(dir, line, t) {
                Err(e) => Err(e),
                Ok(v) => Ok(Table { fc3: Some(v), ..self }),
            }
        } else if t[0] == "align"@ {
            match align_line(line, t) {
                Err(e) => Err(e),
                Ok(v) => Ok(Table { align: Some(v), ..self }),
            }
        } else if t[0] == "ref"@ {
            match ref_line(dir, line, t) {
                Err(e) => Err(e),
                Ok(v) => Ok(Table { reference: Some(v), ..self }),
            }
        } else {
            Err(at(line, "unknown record "@ + quoted_text(t[0])))
        }
    }
}

/// What the lines `ls` say.
pub open spec fn table_of(dir: Seq<char>, ls: Seq<Seq<char>>) -> Result<Table, Seq<char>>
    decreases ls.len(),
{
    if ls.len() == 0 {
        Ok(Table::empty())
    } else {
        match table_of(dir, ls.drop_last()) {
            Err(e) => Err(e),
            Ok(t) => t.with(dir, ls.len(), words(ls.last())),
        }
    }
}

proof fn table_error(dir: Seq<char>, ls: Seq<Seq<char>>, n: int)
    requires
        0 <= n <= ls.len(),
        table_of(dir, ls.take(n)) is Err,
    ensures
        table_of(dir, ls) == table_of(dir, ls.take(n)),
    decreases ls.len() - n,
{
    if n < ls.len() {
        assert(ls.take(n + 1).drop_last() =~= ls.take(n));
        table_error(dir, ls, n + 1);
    } else {
        assert(ls.take(n) =~= ls);
    }
}

// ----------------------------------------------------------------------------
// The manifest
// ----------------------------------------------------------------------------

/// A read and checked manifest.
#[derive(Debug)]
pub struct Manifest {
    pub dir: String,
    pub kernels: Vec<KernelSpec>,
    pub convs: Vec<ConvSpec>,
    pub f3: String,
    pub f4: String,
    pub dimred: DenseSpec,
    pub fc1: Fc1Spec,
    pub fc2: DenseSpec,
    pub fc3_w: String,
    pub fc3_b: String,
    pub align_size: usize,
    /// A real number, as written.
    pub spatial_scale: String,
    pub reference: Option<RefSpec>,
}

pub struct ManifestView {
    pub dir: Seq<char>,
    pub kernels: Seq<KernelView>,
    pub convs: Seq<ConvView>,
    pub f3: Seq<char>,
    pub f4: Seq<char>,
    pub dimred: DenseView,
    pub fc1: Fc1View,
    pub fc2: DenseView,
    pub fc3: (Seq<char>, Seq<char>),
    pub align: (usize, Seq<char>),
    pub reference: Option<RefView>,
}

impl View for Manifest {
    type V = ManifestView;

    open spec fn view(&self) -> ManifestView {
        ManifestView {
            dir: self.dir@,
            kernels: kernel_views(self.kernels@),
            convs: conv_views(self.convs@),
            f3: self.f3@,
            f4: self.f4@,
            dimred: self.dimred@,
            fc1: self.fc1@,
            fc2: self.fc2@,
            fc3: (self.fc3_w@, self.fc3_b@),
            align: (self.align_size, self.spatial_scale@),
            reference: opt_view(self.reference),
        }
    }
}

pub open spec fn missing(what: Seq<char>) -> Seq<char> {
    "manifest.txt has no "@ + what + " record"@
}

/// The manifest the records of `t` make: the version this runtime reads,
/// every record there must be, and layers that agree.
pub open spec fn assembled(dir: Seq<char>, t: Table) -> Result<ManifestView, Seq<char>> {
    if t.version is None {
        Err("manifest.txt has no `gaic <version>` line"@)
    } else if t.version != Some(VERSION) {
        Err("bundle version "@ + decimal(t.version->Some_0 as nat) + ", this runtime reads "@ + decimal(VERSION as nat))
    } else {
        match (t.dimred, t.fc2, t.fc3, t.align, t.f3, t.f4, t.fc1) {
            (None, _, _, _, _, _, _) => Err(missing("dimred"@)),
            (_, None, _, _, _, _, _) => Err(missing("fc2"@)),
            (_, _, None, _, _, _, _) => Err(missing("fc3"@)),
            (_, _, _, None, _, _, _) => Err(missing("align"@)),
            (_, _, _, _, None, _, _) => Err(missing("f3"@)),
            (_, _, _, _, _, None, _) => Err(missing("f4"@)),
            (_, _, _, _, _, _, None) => Err(missing("fc1"@)),
            (Some(dimred), Some(fc2), Some(fc3), Some(align), Some(f3), Some(f4), Some(fc1)) => {
                match network_fault(t.kernels, t.convs, f3, f4, dimred, fc1, fc2, align.0) {
                    Some(m) => Err(m),
                    None => Ok(
                        ManifestView {
                            dir,
                            kernels: t.kernels,
                            convs: t.convs,
                            f3,
                            f4,
                            dimred,
                            fc1,
                            fc2,
                            fc3,
                            align,
                            reference: t.reference,
                        },
                    ),
                }
            },
        }
    }
}

pub open spec fn manifest_of(dir: Seq<char>, text: Seq<char>) -> Result<ManifestView, Seq<char>> {
    match table_of(dir, lines(text)) {
        Err(e) => Err(e),
        Ok(t) => assembled(dir, t),
    }
}

/// The records read so far.
struct Reader {
    version: Option<u32>,
    kernels: Vec<KernelSpec>,
    convs: Vec<ConvSpec>,
    f3: Option<String>,
    f4: Option<String>,
    dimred: Option<DenseSpec>,
    fc1: Option<Fc1Spec>,
    fc2: Option<DenseSpec>,
    fc3: Option<(String, String)>,
    align: Option<(usize, String)>,
    reference: Option<RefSpec>,
}

impl View for Reader {
    type V = Table;

    closed spec fn view(&self) -> Table {
        Table {
            version: self.version,
            kernels: kernel_views(self.kernels@),
            convs: conv_views(self.convs@),
            f3: opt_view(self.f3),
            f4: opt_view(self.f4),
            dimred: opt_view(self.dimred),
            fc1: opt_view(self.fc1),
            fc2: opt_view(self.fc2),
            fc3: match self.fc3 {
                Some(p) => Some((p.0@, p.1@)),
                None => None,
            },
            align: match self.align {
                Some(p) => Some((p.0, p.1@)),
                None => None,
            },
            reference: opt_view(self.reference),
        }
    }
}

impl Reader {
    fn new() -> (r: Reader)
        ensures
            r@ == Table::empty(),
    {
        let r = Reader {
            version: None,
            kernels: Vec::new(),
            convs: Vec::new(),
            f3: None,
            f4: None,
            dimred: None,
            fc1: None,
            fc2: None,
            fc3: None,
            align: None,
            reference: None,
        };
        proof {
            assert(kernel_views(r.kernels@) =~= Seq::empty());
            assert(conv_views(r.convs@) =~= Seq::empty());
        }
        r
    }

    fn apply(&mut self, dir: &str, line: usize, t: &Vec<String>) -> (r: Result<(), Error>)
        ensures
            match (r, old(self)@.with(dir@, line as nat, texts(t@))) {
                (Ok(_), Ok(w)) => final(self)@ == w,
                (Err(e), Err(m)) => says(e, m),
                _ => false,
            },
    {
        proof {
            assert(texts(t@).len() == t@.len());
            assert(forall|i: int| 0 <= i < t@.len() ==> texts(t@)[i] == #[trigger] t@[i]@);
        }
        if t.len() == 0 {
            return Ok(());
        }
        let tag = t[0].as_str();
        if same(tag, "gaic") {
            want(line, t, 2)?;
            let v: u32 = read_num::<u32>(line, t[1].as_str())?;
            self.version = Some(v);
        } else if same(tag, "kernel") {
            let k = read_kernel(dir, line, t)?;
            proof {
                assert(kernel_views(self.kernels@.push(k)) =~= kernel_views(self.kernels@).push(k@));
            }
            self.kernels.push(k);
        } else if same(tag, "conv") {
            let c = read_conv(dir, line, t)?;
            proof {
                assert(conv_views(self.convs@.push(c)) =~= conv_views(self.convs@).push(c@));
            }
            self.convs.push(c);
        } else if same(tag, "f3") {
            want(line, t, 2)?;
            self.f3 = Some(t[1].clone());
        } else if same(tag, "f4") {
            want(line, t, 2)?;
            self.f4 = Some(t[1].clone());
        } else if same(tag, "dimred") {
            let v = read_dimred(dir, line, t)?;
            self.dimred = Some(v);
        } else if same(tag, "fc1") {
            let v = read_fc1(dir, line, t)?;
            self.fc1 = Some(v);
        } else if same(tag, "fc2") {
            let v = read_fc2(dir, line, t)?;
            self.fc2 = Some(v);
        } else if same(tag, "fc3") {
            want(line, t, 4)?;
            self.fc3 = Some((join(dir, t[1].as_str()), join(dir, t[2].as_str())));
        } else if same(tag, "align") {
            want(line, t, 3)?;
            let size: usize = read_num::<usize>(line, t[1].as_str())?;
            let scale = read_real(line, t[2].as_str())?;
            self.align = Some((size, scale));
        } else if same(tag, "ref") {
            let v = read_ref(dir, line, t)?;
            self.reference = Some(v);
        } else {
            let q = quoted(tag);
            let m = cat2("unknown record ", q.as_str());
            return Err(bad(line, m.as_str()));
        }
        Ok(())
    }

    fn read(dir: &str, text: &str) -> (r: Result<Reader, Error>)
        ensures
            shows(r, table_of(dir@, lines(text@))),
    {
        let ls = split_lines(text);
        let ghost all = lines(text@);
        let mut t = Reader::new();
        proof {
            assert(all.take(0) =~= Seq::empty());
            assert(texts(ls@).len() == ls@.len());
        }
        let mut i: usize = 0;
        while i < ls.len()
            invariant
                i <= ls.len(),
                all == lines(text@),
                texts(ls@) == all,
                all.len() == ls.len(),
                table_of(dir@, all.take(i as int)) == Ok::<Table, Seq<char>>(t@),
            decreases ls.len() - i,
        {
            proof {
                assert(all.take(i + 1).drop_last() =~= all.take(i as int));
                assert(all.take(i + 1).last() == texts(ls@)[i as int]);
                if table_of(dir@, all.take(i + 1)) is Err {
                    table_error(dir@, all, i + 1);
                }
            }
            let c = chars_of(ls[i].as_str());
            let w = split_words(c.as_slice());
            match t.apply(dir, i + 1, &w) {
                Ok(_) => {},
                Err(e) => {
                    return Err(e);
                },
            }
            i = i + 1;
        }
        proof {
            assert(all.take(all.len() as int) =~= all);
        }
        Ok(t)
    }

    fn no(what: &str) -> (r: Error)
        ensures
            says(r, missing(what@)),
    {
        Error::Bundle(cat3("manifest.txt has no ", what, " record"))
    }

    fn assemble(self, dir: &str) -> (r: Result<Manifest, Error>)
        ensures
            shows(r, assembled(dir@, self@)),
    {
        match self.version {
            None => {
                return Err(Error::Bundle("manifest.txt has no `gaic <version>` line".to_owned()));
            },
            Some(v) => {
                if v != VERSION {
                    let a = decimal_of(v as u128);
                    let b = decimal_of(VERSION as u128);
                    return Err(
                        Error::Bundle(cat4("bundle version ", a.as_str(), ", this runtime reads ", b.as_str())),
                    );
                }
            },
        }
        let dimred = match self.dimred {
            Some(v) => v,
            None => {
                return Err(Self::no("dimred"));
            },
        };
        let fc2 = match self.fc2 {
            Some(v) => v,
            None => {
                return Err(Self::no("fc2"));
            },
        };
        let fc3 = match self.fc3 {
            Some(v) => v,
            None => {
                return Err(Self::no("fc3"));
            },
        };
        let align = match self.align {
            Some(v) => v,
            None => {
                return Err(Self::no("align"));
            },
        };
        let f3 = match self.f3 {
            Some(v) => v,
            None => {
                return Err(Self::no("f3"));
            },
        };
        let f4 = match self.f4 {
            Some(v) => v,
            None => {
                return Err(Self::no("f4"));
            },
        };
        let fc1 = match self.fc1 {
            Some(v) => v,
            None => {
                return Err(Self::no("fc1"));
            },
        };
        match check_network(&self.kernels, &self.convs, &f3, &f4, &dimred, &fc1, &fc2, align.0) {
            Ok(_) => {},
            Err(e) => {
                return Err(e);
            },
        }
        Ok(
            Manifest {
                dir: dir.to_owned(),
                kernels: self.kernels,
                convs: self.convs,
                f3,
                f4,
                dimred,
                fc1,
                fc2,
                fc3_w: fc3.0,
                fc3_b: fc3.1,
                align_size: align.0,
                spatial_scale: align.1,
                reference: self.reference,
            },
        )
    }
}

impl Manifest {
    /// Reads and checks the text of a manifest in `dir`.
    pub fn load(dir: &str, text: &str) -> (r: Result<Manifest, Error>)
        ensures
            shows(r, manifest_of(dir@, text@)),
    {
        match Reader::read(dir, text) {
            Err(e) => Err(e),
            Ok(t) => t.assemble(dir),
        }
    }

    pub fn kernel(&self, key: &str) -> (r: Result<&KernelSpec, Error>)
        ensures
            shows(r, kernel_in(self@.kernels, key@)),
    {
        find_kernel(&self.kernels, key)
    }
}

/// A manifest that loads names, for each of its convs and for fc1, a kernel
/// it has.
pub proof fn kernels_are_known(dir: Seq<char>, text: Seq<char>)
    requires
        manifest_of(dir, text) is Ok,
    ensures
        ({
            let m = manifest_of(dir, text)->Ok_0;
            &&& kernel_in(m.kernels, m.fc1.kernel) is Ok
            &&& forall|i: int| 0 <= i < m.convs.len() ==> kernel_in(m.kernels, (#[trigger] m.convs[i]).kernel) is Ok
        }),
{
    let m = manifest_of(dir, text)->Ok_0;
    chain_kernels(m.kernels, m.convs, 3);
}

proof fn chain_kernels(ks: Seq<KernelView>, cs: Seq<ConvView>, c_in: usize)
    requires
        crate::gaic_bundle::chain_fault(ks, cs, c_in) is None,
    ensures
        forall|i: int| 0 <= i < cs.len() ==> kernel_in(ks, (#[trigger] cs[i]).kernel) is Ok,
    decreases cs.len(),
{
    if cs.len() > 0 {
        chain_kernels(ks, cs.skip(1), cs[0].oc);
        assert forall|i: int| 0 <= i < cs.len() implies kernel_in(ks, (#[trigger] cs[i]).kernel) is Ok by {
            if i > 0 {
                assert(cs[i] == cs.skip(1)[i - 1]);
            }
        }
    }
}

// ----------------------------------------------------------------------------
// Files of floats
// ----------------------------------------------------------------------------

/// The little-endian single-precision values of a file's bytes, as bits.
pub open spec fn floats_of(bytes: Seq<u8>) -> Seq<u32> {
    Seq::new((bytes.len() / 4) as nat, |i: int| le32(bytes, 4 * i) as u32)
}

/// The values of the file at `path`, whose bytes are `bytes`.
pub fn floats(path: &str, bytes: &[u8]) -> (r: Result<Vec<u32>, Error>)
    ensures
        match r {
            Ok(v) => bytes.len() % 4 == 0 && v@ == floats_of(bytes@),
            Err(e) => bytes.len() % 4 != 0 && says(
                e,
                path@ + ": "@ + decimal(bytes@.len()) + " bytes is not whole f32s"@,
            ),
        },
{
    if bytes.len() % 4 != 0 {
        let n = decimal_of(bytes.len() as u128);
        return Err(Error::Bundle(cat4(path, ": ", n.as_str(), " bytes is not whole f32s")));
    }
    let total: usize = bytes.len() / 4;
    let mut out: Vec<u32> = Vec::new();
    let mut i: usize = 0;
    while i < total
        invariant
            i <= total,
            total == bytes.len() / 4,
            bytes.len() % 4 == 0,
            out.len() == i,
            forall|k: int| 0 <= k < i ==> #[trigger] out@[k] == le32(bytes@, 4 * k),
        decreases total - i,
    {
        out.push(read32(bytes, 4 * i));
        i = i + 1;
    }
    assert(out@ =~= floats_of(bytes@));
    Ok(out)
}

/// As [`floats`], and there must be `n` of them.
pub fn floats_n(path: &str, bytes: &[u8], n: usize) -> (r: Result<Vec<u32>, Error>)
    ensures
        match r {
            Ok(v) => bytes.len() == 4 * n && v@ == floats_of(bytes@),
            Err(e) => if bytes.len() % 4 != 0 {
                says(e, path@ + ": "@ + decimal(bytes@.len()) + " bytes is not whole f32s"@)
            } else {
                bytes.len() != 4 * n && says(
                    e,
                    path@ + ": "@ + decimal((bytes@.len() / 4) as nat) + " values, expected "@ + decimal(n as nat),
                )
            },
        },
{
    match floats(path, bytes) {
        Err(e) => Err(e),
        Ok(v) => {
            if v.len() != n {
                let a = decimal_of(v.len() as u128);
                let b = decimal_of(n as u128);
                return Err(Error::Bundle(cat5(path, ": ", a.as_str(), " values, expected ", b.as_str())));
            }
            Ok(v)
        },
    }
}

} // verus!
