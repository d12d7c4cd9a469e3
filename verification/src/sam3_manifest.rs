//! The plain SAM 3 bundle: a `manifest.txt` read line by line, keeping what
//! it knows, and the `tensors.txt` / `tensors.bin` of its weights.

use crate::dict::Dict;
use crate::manifest::{join, joined, keyed, lookup, record_of, Record, RecordView, Xclbin, XclbinView};
use crate::sam3::{faults, reads, Error};
use crate::sam3_bundle::{
    case_views, opt_text, test_views, unescape, unescaped, Case, CaseView, GemmSpec, GemmView, MhaSpec, MhaView, OpSpec,
    OpView, VERSION,
};
use crate::text::{
    cat3, cat4, cat5, decimal, decimal_of, denotes_real, is_real, lines, pieces, same, split_lines, split_pieces, texts,
    FromText,
};
use vstd::prelude::*;

verus! {

// ----------------------------------------------------------------------------
// Lines
// ----------------------------------------------------------------------------

impl RecordView {
    /// The `key=value` fields after the record's name.
    pub open spec fn named(self, k: Seq<char>) -> Option<Seq<char>> {
        keyed(self.fields.skip(1), k)
    }

    pub open spec fn named_or_fault(self, k: Seq<char>) -> Result<Seq<char>, Seq<char>> {
        match self.named(k) {
            Some(v) => Ok(v),
            None => Err("no "@ + k + " in: "@ + self.text),
        }
    }

    pub open spec fn named_as<T: FromText>(self, k: Seq<char>) -> Result<T, Seq<char>> {
        match self.named(k) {
            Some(v) => match T::from_text(v) {
                Some(x) => Ok(x),
                None => Err("`"@ + k + "=` missing or malformed in: "@ + self.text),
            },
            None => Err("`"@ + k + "=` missing or malformed in: "@ + self.text),
        }
    }

    pub open spec fn kernel_name(self) -> Seq<char> {
        match self.named("name"@) {
            Some(v) => v,
            None => "MLIR_AIE"@,
        }
    }
}

/// A record with the fields after its name apart.
struct Line<'a> {
    r: &'a Record,
    rest: Vec<String>,
}

impl<'a> Line<'a> {
    spec fn wf(self) -> bool {
        texts(self.rest@) == self.r@.fields.skip(1)
    }

    fn new(r: &'a Record) -> (l: Line<'a>)
        requires
            r@.fields.len() > 0,
        ensures
            l.wf(),
            l.r == r,
    {
        let mut rest: Vec<String> = Vec::new();
        let ghost all = r@.fields;
        proof {
            assert(texts(rest@) =~= Seq::empty());
            assert(all.skip(1).take(0) =~= Seq::empty());
            assert(all.len() == r.fields@.len());
        }
        let mut i: usize = 1;
        while i < r.fields.len()
            invariant
                1 <= i <= r.fields.len(),
                all == texts(r.fields@),
                texts(rest@) == all.skip(1).take(i - 1),
            decreases r.fields.len() - i,
        {
            let f = r.fields[i].clone();
            proof {
                crate::text::texts_push(rest@, f);
                assert(all.skip(1).take(i as int) =~= all.skip(1).take(i - 1).push(f@));
            }
            rest.push(f);
            i = i + 1;
        }
        proof {
            assert(all.skip(1).take(all.len() - 1) =~= all.skip(1));
        }
        Line { r, rest }
    }

    fn text(&self, k: &str) -> (o: Result<String, Error>)
        requires
            self.wf(),
        ensures
            reads(o, self.r@.named_or_fault(k@)),
    {
        match lookup(&self.rest, k) {
            Some(v) => Ok(v),
            None => Err(Error::Bundle(cat4("no ", k, " in: ", self.r.text()))),
        }
    }

    fn field<T: FromText>(&self, k: &str) -> (o: Result<T, Error>)
        requires
            self.wf(),
        ensures
            match (o, self.r@.named_as::<T>(k@)) {
                (Ok(v), Ok(w)) => v == w,
                (Err(e), Err(m)) => faults(e, m),
                _ => false,
            },
    {
        let found = match lookup(&self.rest, k) {
            Some(v) => T::parse_text(v.as_str()),
            None => None,
        };
        match found {
            Some(v) => Ok(v),
            None => Err(Error::Bundle(cat4("`", k, "=` missing or malformed in: ", self.r.text()))),
        }
    }

    fn kernel_name(&self) -> (o: String)
        requires
            self.wf(),
        ensures
            o@ == self.r@.kernel_name(),
    {
        match lookup(&self.rest, "name") {
            Some(v) => v,
            None => "MLIR_AIE".to_string(),
        }
    }
}

// ----------------------------------------------------------------------------
// Records
// ----------------------------------------------------------------------------

/// The GEMM a `gemm` line defines.
pub open spec fn gemm_of(dir: Seq<char>, r: RecordView) -> Result<GemmView, Seq<char>> {
    match (
        r.named_or_fault("ctx"@),
        r.named_or_fault("insts"@),
        r.named_as::<usize>("M"@),
        r.named_as::<usize>("K"@),
        r.named_as::<usize>("N"@),
        r.named_as::<usize>("lda"@),
        r.named_as::<usize>("tile_k"@),
    ) {
        (Err(e), _, _, _, _, _, _) => Err(e),
        (_, Err(e), _, _, _, _, _) => Err(e),
        (_, _, Err(e), _, _, _, _) => Err(e),
        (_, _, _, Err(e), _, _, _) => Err(e),
        (_, _, _, _, Err(e), _, _) => Err(e),
        (_, _, _, _, _, Err(e), _) => Err(e),
        (_, _, _, _, _, _, Err(e)) => Err(e),
        (Ok(ctx), Ok(insts), Ok(m), Ok(k), Ok(n), Ok(lda), Ok(tile_k)) => {
            match (
                r.named_as::<usize>("tile_n"@),
                r.named_as::<usize>("ct_k"@),
                r.named_as::<u8>("bias"@),
                r.named_as::<usize>("b_bytes"@),
            ) {
                (Err(e), _, _, _) => Err(e),
                (_, Err(e), _, _) => Err(e),
                (_, _, Err(e), _) => Err(e),
                (_, _, _, Err(e)) => Err(e),
                (Ok(tile_n), Ok(ct_k), Ok(bias), Ok(b_bytes)) => Ok(
                    GemmView {
                        key: r.fields[0],
                        ctx,
                        insts: joined(dir, insts),
                        m,
                        k,
                        n,
                        lda,
                        tile_k,
                        tile_n,
                        ct_k,
                        bias: bias != 0,
                        b_bytes,
                    },
                ),
            }
        },
    }
}

fn read_gemm(dir: &str, r: &Record) -> (o: Result<GemmSpec, Error>)
    requires
        r@.fields.len() > 0,
    ensures
        reads(o, gemm_of(dir@, r@)),
{
    assert(r@.fields[0] == r.fields@[0]@);
    let l = Line::new(r);
    let key = r.fields[0].clone();
    let ctx = l.text("ctx")?;
    let insts = l.text("insts")?;
    let m: usize = l.field::<usize>("M")?;
    let k: usize = l.field::<usize>("K")?;
    let n: usize = l.field::<usize>("N")?;
    let lda: usize = l.field::<usize>("lda")?;
    let tile_k: usize = l.field::<usize>("tile_k")?;
    let tile_n: usize = l.field::<usize>("tile_n")?;
    let ct_k: usize = l.field::<usize>("ct_k")?;
    let bias: u8 = l.field::<u8>("bias")?;
    let b_bytes: usize = l.field::<usize>("b_bytes")?;
    Ok(
        GemmSpec {
            key,
            ctx,
            insts: join(dir, insts.as_str()),
            m,
            k,
            n,
            lda,
            tile_k,
            tile_n,
            ct_k,
            bias: bias != 0,
            b_bytes,
        },
    )
}

/// The attention an `mha` line defines.
pub open spec fn mha_of(dir: Seq<char>, r: RecordView) -> Result<MhaView, Seq<char>> {
    match (
        r.named_or_fault("xclbin"@),
        r.named_or_fault("insts"@),
        r.named_as::<usize>("heads"@),
        r.named_as::<usize>("seq"@),
        r.named_as::<usize>("d"@),
        r.named_as::<u8>("token_major"@),
        r.named_as::<usize>("elems"@),
    ) {
        (Err(e), _, _, _, _, _, _) => Err(e),
        (_, Err(e), _, _, _, _, _) => Err(e),
        (_, _, Err(e), _, _, _, _) => Err(e),
        (_, _, _, Err(e), _, _, _) => Err(e),
        (_, _, _, _, Err(e), _, _) => Err(e),
        (_, _, _, _, _, Err(e), _) => Err(e),
        (_, _, _, _, _, _, Err(e)) => Err(e),
        (Ok(xclbin), Ok(insts), Ok(heads), Ok(seq), Ok(d), Ok(token_major), Ok(elems)) => Ok(
            MhaView {
                key: r.fields[0],
                xclbin: joined(dir, xclbin),
                insts: joined(dir, insts),
                name: r.kernel_name(),
                heads,
                seq,
                d,
                token_major: token_major != 0,
                elems,
            },
        ),
    }
}

fn read_mha(dir: &str, r: &Record) -> (o: Result<MhaSpec, Error>)
    requires
        r@.fields.len() > 0,
    ensures
        reads(o, mha_of(dir@, r@)),
{
    assert(r@.fields[0] == r.fields@[0]@);
    let l = Line::new(r);
    let key = r.fields[0].clone();
    let xclbin = l.text("xclbin")?;
    let insts = l.text("insts")?;
    let heads: usize = l.field::<usize>("heads")?;
    let seq: usize = l.field::<usize>("seq")?;
    let d: usize = l.field::<usize>("d")?;
    let token_major: u8 = l.field::<u8>("token_major")?;
    let elems: usize = l.field::<usize>("elems")?;
    Ok(
        MhaSpec {
            key,
            xclbin: join(dir, xclbin.as_str()),
            insts: join(dir, insts.as_str()),
            name: l.kernel_name(),
            heads,
            seq,
            d,
            token_major: token_major != 0,
            elems,
        },
    )
}

/// The kernel an `op` line defines.
pub open spec fn op_of(dir: Seq<char>, r: RecordView) -> Result<OpView, Seq<char>> {
    match (
        r.named_or_fault("xclbin"@),
        r.named_or_fault("insts"@),
    ) {
        (Err(e), _) => Err(e),
        (_, Err(e)) => Err(e),
        (Ok(xclbin), Ok(insts)) => Ok(
            OpView {
                key: r.fields[0],
                xclbin: joined(dir, xclbin),
                insts: joined(dir, insts),
                name: r.kernel_name(),
            },
        ),
    }
}

fn read_op(dir: &str, r: &Record) -> (o: Result<OpSpec, Error>)
    requires
        r@.fields.len() > 0,
    ensures
        reads(o, op_of(dir@, r@)),
{
    assert(r@.fields[0] == r.fields@[0]@);
    let l = Line::new(r);
    let key = r.fields[0].clone();
    let xclbin = l.text("xclbin")?;
    let insts = l.text("insts")?;
    Ok(
        OpSpec {
            key,
            xclbin: join(dir, xclbin.as_str()),
            insts: join(dir, insts.as_str()),
            name: l.kernel_name(),
        },
    )
}

/// What the lines read so far say.
#[verifier::ext_equal]
pub struct LinesView {
    pub version: Option<u32>,
    pub params: Map<Seq<char>, Seq<char>>,
    pub xclbins: Map<Seq<char>, XclbinView>,
    pub gemms: Map<Seq<char>, GemmView>,
    pub mhas: Map<Seq<char>, MhaView>,
    pub ops: Map<Seq<char>, OpView>,
    pub ref_image: Option<Seq<char>>,
    pub ref_prompt: Option<Seq<char>>,
    pub tok_tests: Seq<(usize, Seq<char>)>,
    pub cases: Seq<CaseView>,
}

impl LinesView {
    pub open spec fn empty() -> LinesView {
        LinesView {
            version: None,
            params: Map::empty(),
            xclbins: Map::empty(),
            gemms: Map::empty(),
            mhas: Map::empty(),
            ops: Map::empty(),
            ref_image: None,
            ref_prompt: None,
            tok_tests: Seq::empty(),
            cases: Seq::empty(),
        }
    }

    /// With the record `r`. Records it does not know, or that are too short,
    /// say nothing; one named again replaces the first.
    pub open spec fn with(self, dir: Seq<char>, r: RecordView) -> Result<LinesView, Seq<char>> {
        let n = r.fields.len();
        if r.tag == "version"@ {
            Ok(
                LinesView {
                    version: if n >= 1 {
                        u32::from_text(r.fields[0])
                    } else {
                        None
                    },
                    ..self
                },
            )
        } else if r.tag == "param"@ && n >= 2 {
            Ok(LinesView { params: self.params.insert(r.fields[0], r.fields[1]), ..self })
        } else if r.tag == "xclbin"@ && n >= 3 {
            let x = XclbinView { key: r.fields[0], path: joined(dir, r.fields[1]), kernel: r.fields[2] };
            Ok(LinesView { xclbins: self.xclbins.insert(r.fields[0], x), ..self })
        } else if r.tag == "gemm"@ && n >= 1 {
            match gemm_of(dir, r) {
                Err(e) => Err(e),
                Ok(g) => Ok(LinesView { gemms: self.gemms.insert(g.key, g), ..self }),
            }
        } else if r.tag == "mha"@ && n >= 1 {
            match mha_of(dir, r) {
                Err(e) => Err(e),
                Ok(h) => Ok(LinesView { mhas: self.mhas.insert(h.key, h), ..self }),
            }
        } else if r.tag == "op"@ && n >= 1 {
            match op_of(dir, r) {
                Err(e) => Err(e),
                Ok(x) => Ok(LinesView { ops: self.ops.insert(x.key, x), ..self }),
            }
        } else if r.tag == "ref_image"@ {
            Ok(LinesView { ref_image: Some(joined(dir, r.rest(0))), ..self })
        } else if r.tag == "ref_prompt"@ {
            Ok(LinesView { ref_prompt: Some(r.rest(0)), ..self })
        } else if r.tag == "tok_test"@ && n >= 1 {
            match usize::from_text(r.fields[0]) {
                None => Err(r.text),
                Some(j) => Ok(LinesView { tok_tests: self.tok_tests.push((j, unescaped(r.rest(1)))), ..self }),
            }
        } else if r.tag == "case"@ && n >= 3 {
            match usize::from_text(r.fields[0]) {
                None => Err(r.text),
                Some(idx) => Ok(
                    LinesView {
                        cases: self.cases.push(
                            CaseView { idx, image: joined(dir, r.fields[1]), prompt: r.rest(2) },
                        ),
                        ..self
                    },
                ),
            }
        } else {
            Ok(self)
        }
    }

    pub open spec fn with_line(self, dir: Seq<char>, line: nat, text: Seq<char>) -> Result<LinesView, Seq<char>> {
        match record_of(line, text) {
            None => Ok(self),
            Some(r) => self.with(dir, r),
        }
    }

    /// A GEMM runs on an xclbin that no line defines.
    pub open spec fn stray(self, k: Seq<char>) -> bool {
        self.gemms.contains_key(k) && !self.xclbins.contains_key(self.gemms[k].ctx)
    }
}

/// What the lines `ls` say.
pub open spec fn lines_of(dir: Seq<char>, ls: Seq<Seq<char>>) -> Result<LinesView, Seq<char>>
    decreases ls.len(),
{
    if ls.len() == 0 {
        Ok(LinesView::empty())
    } else {
        match lines_of(dir, ls.drop_last()) {
            Err(e) => Err(e),
            Ok(t) => t.with_line(dir, ls.len(), ls.last()),
        }
    }
}

proof fn lines_error(dir: Seq<char>, ls: Seq<Seq<char>>, n: int)
    requires
        0 <= n <= ls.len(),
        lines_of(dir, ls.take(n)) is Err,
    ensures
        lines_of(dir, ls) == lines_of(dir, ls.take(n)),
    decreases ls.len() - n,
{
    if n < ls.len() {
        assert(ls.take(n + 1).drop_last() =~= ls.take(n));
        lines_error(dir, ls, n + 1);
    } else {
        assert(ls.take(n) =~= ls);
    }
}

pub open spec fn version_text(v: Option<u32>) -> Seq<char> {
    match v {
        Some(n) => "Some("@ + decimal(n as nat) + ")"@,
        None => "None"@,
    }
}

pub open spec fn version_fault(dir: Seq<char>, v: Option<u32>) -> Seq<char> {
    joined(dir, "manifest.txt"@) + ": bundle version "@ + version_text(v) + ", this runtime reads "@ + decimal(
        VERSION as nat,
    )
}

pub open spec fn stray_fault(g: GemmView) -> Seq<char> {
    "gemm "@ + g.key + " runs on unknown xclbin "@ + g.ctx
}

/// Whether `o` is what the manifest text `text` comes to: what its lines
/// say, of the version this runtime reads and with every GEMM's xclbin
/// defined; of several stray GEMMs, any may be the one reported.
pub open spec fn loads(dir: Seq<char>, text: Seq<char>, o: Result<LinesView, Error>) -> bool {
    match lines_of(dir, lines(text)) {
        Err(m) => o matches Err(e) && faults(e, m),
        Ok(t) => if t.version != Some(VERSION) {
            o matches Err(e) && faults(e, version_fault(dir, t.version))
        } else {
            match o {
                Ok(v) => v == t && forall|k: Seq<char>| !(#[trigger] t.stray(k)),
                Err(e) => exists|k: Seq<char>| #[trigger] t.stray(k) && faults(e, stray_fault(t.gemms[k])),
            }
        },
    }
}

/// A manifest.
#[derive(Debug)]
pub struct Manifest {
    pub dir: String,
    pub version: Option<u32>,
    pub params: Dict<String>,
    pub xclbins: Dict<Xclbin>,
    pub gemms: Dict<GemmSpec>,
    pub mhas: Dict<MhaSpec>,
    pub ops: Dict<OpSpec>,
    pub ref_image: Option<String>,
    pub ref_prompt: Option<String>,
    pub tok_tests: Vec<(usize, String)>,
    pub cases: Vec<Case>,
}

impl View for Manifest {
    type V = LinesView;

    open spec fn view(&self) -> LinesView {
        LinesView {
            version: self.version,
            params: self.params@,
            xclbins: self.xclbins@,
            gemms: self.gemms@,
            mhas: self.mhas@,
            ops: self.ops@,
            ref_image: opt_text(self.ref_image),
            ref_prompt: opt_text(self.ref_prompt),
            tok_tests: test_views(self.tok_tests@),
            cases: case_views(self.cases@),
        }
    }
}

pub open spec fn viewed(o: Result<Manifest, Error>) -> Result<LinesView, Error> {
    match o {
        Ok(m) => Ok(m@),
        Err(e) => Err(e),
    }
}

impl Manifest {
    fn empty(dir: &str) -> (m: Manifest)
        ensures
            m@ == LinesView::empty(),
            m.dir@ == dir@,
    {
        let m = Manifest {
            dir: dir.to_owned(),
            version: None,
            params: Dict::new(),
            xclbins: Dict::new(),
            gemms: Dict::new(),
            mhas: Dict::new(),
            ops: Dict::new(),
            ref_image: None,
            ref_prompt: None,
            tok_tests: Vec::new(),
            cases: Vec::new(),
        };
        proof {
            assert(test_views(m.tok_tests@) =~= Seq::empty());
            assert(case_views(m.cases@) =~= Seq::empty());
        }
        m
    }

    fn apply(&mut self, dir: &str, r: &Record) -> (o: Result<(), Error>)
        ensures
            match (o, old(self)@.with(dir@, r@)) {
                (Ok(_), Ok(t)) => final(self)@ == t,
                (Err(e), Err(m)) => faults(e, m),
                _ => false,
            },
            final(self).dir@ == old(self).dir@,
    {
        let tag = r.tag.as_str();
        let n: usize = r.fields.len();
        proof {
            assert(r@.fields.len() == n);
            assert(forall|i: int| 0 <= i < n ==> r@.fields[i] == #[trigger] r.fields@[i]@);
        }
        if same(tag, "version") {
            self.version = if n >= 1 {
                u32::parse_text(r.fields[0].as_str())
            } else {
                None
            };
        } else if same(tag, "param") && n >= 2 {
            self.params.insert(r.fields[0].clone(), r.fields[1].clone());
        } else if same(tag, "xclbin") && n >= 3 {
            let x = Xclbin {
                key: r.fields[0].clone(),
                path: join(dir, r.fields[1].as_str()),
                kernel: r.fields[2].clone(),
            };
            self.xclbins.insert(r.fields[0].clone(), x);
        } else if same(tag, "gemm") && n >= 1 {
            let g = read_gemm(dir, r)?;
            self.gemms.insert(g.key.clone(), g);
        } else if same(tag, "mha") && n >= 1 {
            let h = read_mha(dir, r)?;
            self.mhas.insert(h.key.clone(), h);
        } else if same(tag, "op") && n >= 1 {
            let x = read_op(dir, r)?;
            self.ops.insert(x.key.clone(), x);
        } else if same(tag, "ref_image") {
            let rest = r.rest(0);
            self.ref_image = Some(join(dir, rest.as_str()));
        } else if same(tag, "ref_prompt") {
            self.ref_prompt = Some(r.rest(0));
        } else if same(tag, "tok_test") && n >= 1 {
            match usize::parse_text(r.fields[0].as_str()) {
                None => {
                    return Err(Error::Bundle(r.text().to_owned()));
                },
                Some(j) => {
                    let rest = r.rest(1);
                    let t = (j, unescape(rest.as_str()));
                    let ghost before = self.tok_tests@;
                    self.tok_tests.push(t);
                    proof {
                        assert(test_views(self.tok_tests@) =~= test_views(before).push((t.0, t.1@)));
                    }
                },
            }
        } else if same(tag, "case") && n >= 3 {
            match usize::parse_text(r.fields[0].as_str()) {
                None => {
                    return Err(Error::Bundle(r.text().to_owned()));
                },
                Some(idx) => {
                    let c = Case { idx, image: join(dir, r.fields[1].as_str()), prompt: r.rest(2) };
                    let ghost before = self.cases@;
                    self.cases.push(c);
                    proof {
                        assert(case_views(self.cases@) =~= case_views(before).push(c@));
                    }
                },
            }
        }
        Ok(())
    }

    fn read(dir: &str, text: &str) -> (o: Result<Manifest, Error>)
        ensures
            reads(o, lines_of(dir@, lines(text@))),
            o matches Ok(m) ==> m.dir@ == dir@,
    {
        let ls = split_lines(text);
        let ghost all = lines(text@);
        let mut m = Manifest::empty(dir);
        proof {
            assert(all.take(0) =~= Seq::empty());
            assert(texts(ls@).len() == ls@.len());
        }
        let mut i: usize = 0;
        while i < ls.len()
            invariant
                i <= ls.len(),
                all == lines(text@),
                texts(ls@) == all,
                all.len() == ls.len(),
                lines_of(dir@, all.take(i as int)) == Ok::<LinesView, Seq<char>>(m@),
                m.dir@ == dir@,
            decreases ls.len() - i,
        {
            proof {
                assert(all.take(i + 1).drop_last() =~= all.take(i as int));
                assert(all.take(i + 1).last() == texts(ls@)[i as int]);
                if lines_of(dir@, all.take(i + 1)) is Err {
                    lines_error(dir@, all, i + 1);
                }
            }
            match Record::parse(i + 1, ls[i].as_str()) {
                None => {},
                Some(r) => {
                    match m.apply(dir, &r) {
                        Ok(_) => {},
                        Err(e) => {
                            return Err(e);
                        },
                    }
                },
            }
            i = i + 1;
        }
        proof {
            assert(all.take(all.len() as int) =~= all);
        }
        Ok(m)
    }

    /// Reads the text of the manifest in `dir`.
    pub fn load(dir: &str, text: &str) -> (o: Result<Manifest, Error>)
        ensures
            loads(dir@, text@, viewed(o)),
            o matches Ok(m) ==> m.dir@ == dir@,
    {
        let m = Manifest::read(dir, text)?;
        if m.version != Some(VERSION) {
            let path = join(dir, "manifest.txt");
            let v = match m.version {
                Some(n) => {
                    let d = decimal_of(n as u128);
                    cat3("Some(", d.as_str(), ")")
                },
                None => "None".to_string(),
            };
            let w = decimal_of(VERSION as u128);
            return Err(
                Error::Bundle(
                    cat5(path.as_str(), ": bundle version ", v.as_str(), ", this runtime reads ", w.as_str()),
                ),
            );
        }
        let keys = m.gemms.keys();
        let ghost t = m@;
        let mut i: usize = 0;
        while i < keys.len()
            invariant
                i <= keys.len(),
                t == m@,
                m.dir@ == dir@,
                lines_of(dir@, lines(text@)) == Ok::<LinesView, Seq<char>>(t),
                t.version == Some(VERSION),
                forall|k: Seq<char>| m.gemms@.contains_key(k) <==> texts(keys@).contains(k),
                forall|j: int| 0 <= j < i ==> !t.stray(#[trigger] texts(keys@)[j]),
            decreases keys.len() - i,
        {
            proof {
                assert(texts(keys@)[i as int] == keys@[i as int]@);
                assert(texts(keys@).contains(keys@[i as int]@));
            }
            let key = keys[i].as_str();
            if let Some(g) = m.gemms.get(key) {
                if !m.xclbins.has(g.ctx.as_str()) {
                    proof {
                        assert(t.stray(key@));
                    }
                    return Err(
                        Error::Bundle(cat4("gemm ", g.key.as_str(), " runs on unknown xclbin ", g.ctx.as_str())),
                    );
                }
            }
            i = i + 1;
        }
        proof {
            assert forall|k: Seq<char>| !(#[trigger] t.stray(k)) by {
                if t.gemms.contains_key(k) {
                    assert(texts(keys@).contains(k));
                    let j = choose|j: int| 0 <= j < texts(keys@).len() && texts(keys@)[j] == k;
                    assert(!t.stray(texts(keys@)[j]));
                }
            }
        }
        Ok(m)
    }

    pub fn param(&self, k: &str) -> (o: Result<&str, Error>)
        ensures
            reads(o, self@.param(k@)),
    {
        match self.params.get(k) {
            Some(v) => Ok(v.as_str()),
            None => Err(Error::Bundle(cat3("param ", k, " missing from the manifest"))),
        }
    }

    pub fn usize(&self, k: &str) -> (o: Result<usize, Error>)
        ensures
            reads(o, self@.usize_param(k@)),
    {
        let v = self.param(k)?;
        match usize::parse_text(v) {
            Some(n) => Ok(n),
            None => Err(Error::Bundle(cat3("param ", k, " is not an integer"))),
        }
    }

    /// A param that must denote a real number, as written.
    pub fn real_param(&self, k: &str) -> (o: Result<String, Error>)
        ensures
            reads(o, self@.real_param(k@)),
    {
        let v = self.param(k)?;
        if denotes_real(v) {
            Ok(v.to_owned())
        } else {
            Err(Error::Bundle(cat3("param ", k, " is not a number")))
        }
    }

    /// A comma-separated param (empty items skipped).
    pub fn list(&self, k: &str) -> (o: Result<Vec<usize>, Error>)
        ensures
            match (o, self@.list_param(k@)) {
                (Ok(v), Ok(s)) => v@ == s,
                (Err(e), Err(m)) => faults(e, m),
                _ => false,
            },
    {
        let v = self.param(k)?;
        let p = split_pieces(v, ',');
        let ghost all = texts(p@);
        let mut out: Vec<usize> = Vec::new();
        let mut i: usize = 0;
        proof {
            assert(all.take(0) =~= Seq::empty());
        }
        while i < p.len()
            invariant
                i <= p.len(),
                all == texts(p@),
                self@.list_param(k@) == items_of(all, k@),
                items_of(all.take(i as int), k@) == Ok::<Seq<usize>, Seq<char>>(out@),
            decreases p.len() - i,
        {
            let s = p[i].as_str();
            proof {
                assert(all.take(i + 1).drop_last() =~= all.take(i as int));
                assert(all.take(i + 1).last() == s@);
                if items_of(all.take(i + 1), k@) is Err {
                    items_error(all, i + 1, k@);
                }
            }
            if s.unicode_len() > 0 {
                match usize::parse_text(s) {
                    Some(x) => {
                        out.push(x);
                    },
                    None => {
                        return Err(Error::Bundle(cat3("param ", k, ": bad list")));
                    },
                }
            }
            i = i + 1;
        }
        proof {
            assert(all.take(all.len() as int) =~= all);
        }
        Ok(out)
    }

    pub fn gemm(&self, k: &str) -> (o: Result<&GemmSpec, Error>)
        ensures
            reads(o, self@.gemm(k@)),
    {
        match self.gemms.get(k) {
            Some(g) => Ok(g),
            None => Err(Error::Bundle(cat3("kernel ", k, " missing from the manifest"))),
        }
    }
}

/// The values of the non-empty pieces `p` of list param `k`.
pub open spec fn items_of(p: Seq<Seq<char>>, k: Seq<char>) -> Result<Seq<usize>, Seq<char>>
    decreases p.len(),
{
    if p.len() == 0 {
        Ok(Seq::empty())
    } else {
        match items_of(p.drop_last(), k) {
            Err(m) => Err(m),
            Ok(s) => if p.last().len() == 0 {
                Ok(s)
            } else {
                match usize::from_text(p.last()) {
                    Some(v) => Ok(s.push(v)),
                    None => Err("param "@ + k + ": bad list"@),
                }
            },
        }
    }
}

proof fn items_error(p: Seq<Seq<char>>, n: int, k: Seq<char>)
    requires
        0 <= n <= p.len(),
        items_of(p.take(n), k) is Err,
    ensures
        items_of(p, k) == items_of(p.take(n), k),
    decreases p.len() - n,
{
    if n < p.len() {
        assert(p.take(n + 1).drop_last() =~= p.take(n));
        items_error(p, n + 1, k);
    } else {
        assert(p.take(n) =~= p);
    }
}

impl LinesView {
    pub open spec fn param(self, k: Seq<char>) -> Result<Seq<char>, Seq<char>> {
        if self.params.contains_key(k) {
            Ok(self.params[k])
        } else {
            Err("param "@ + k + " missing from the manifest"@)
        }
    }

    pub open spec fn usize_param(self, k: Seq<char>) -> Result<usize, Seq<char>> {
        match self.param(k) {
            Err(m) => Err(m),
            Ok(v) => match usize::from_text(v) {
                Some(n) => Ok(n),
                None => Err("param "@ + k + " is not an integer"@),
            },
        }
    }

    pub open spec fn real_param(self, k: Seq<char>) -> Result<Seq<char>, Seq<char>> {
        match self.param(k) {
            Err(m) => Err(m),
            Ok(v) => if is_real(v) {
                Ok(v)
            } else {
                Err("param "@ + k + " is not a number"@)
            },
        }
    }

    pub open spec fn list_param(self, k: Seq<char>) -> Result<Seq<usize>, Seq<char>> {
        match self.param(k) {
            Err(m) => Err(m),
            Ok(v) => items_of(pieces(v, ','), k),
        }
    }

    pub open spec fn gemm(self, k: Seq<char>) -> Result<GemmView, Seq<char>> {
        if self.gemms.contains_key(k) {
            Ok(self.gemms[k])
        } else {
            Err("kernel "@ + k + " missing from the manifest"@)
        }
    }
}

} // verus!
