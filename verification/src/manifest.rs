//! `manifest.txt`, the record file of a bundle.
//!
//! One record a line: `<tag> <field>...`; a field `k=v` is also looked up
//! by key. Blank lines and `#` lines are skipped. Three records mean the
//! same in every bundle: `version <n>`, `param <name> <value...>` and
//! `xclbin <key> <file> <kernel name>`; every other record belongs to the
//! model, whose runtime reads it from `Manifest::records`, in file order.

use crate::dict::Dict;
use crate::text::{
    denotes_real, is_real, is_space, cat2, cat3, cat5, chars_of, decimal, decimal_of, lines, non_spaces, pieces, run,
    run_bound, same,
    space_run, spaces, split_at_first, split_lines, split_once, split_pieces, split_words, string_of, texts, texts_push,
    words, words_skip_spaces, FromText,
};
use vstd::prelude::*;

verus! {

#[derive(Debug)]
pub enum Error {
    /// A bundle file could not be read: its path, and the system's message.
    Io(String, String),
    /// A bundle file is malformed or inconsistent (the message says where).
    Format(String),
}

impl Error {
    /// The text shown for an error.
    pub open spec fn shown(&self) -> Seq<char> {
        match self {
            Error::Io(p, e) => p@ + ": "@ + e@,
            Error::Format(m) => m@,
        }
    }

    pub fn message(&self) -> (r: String)
        ensures
            r@ == self.shown(),
    {
        match self {
            Error::Io(p, e) => cat3(p.as_str(), ": ", e.as_str()),
            Error::Format(m) => m.clone(),
        }
    }
}

/// `e` is the format error with the message `m`.
pub open spec fn says(e: Error, m: Seq<char>) -> bool {
    e matches Error::Format(s) && s@ == m
}

/// `r` is the value or the format error that `want` prescribes.
pub open spec fn gives<T>(r: Result<T, Error>, want: Result<T, Seq<char>>) -> bool {
    match (r, want) {
        (Ok(a), Ok(b)) => a == b,
        (Err(e), Err(m)) => says(e, m),
        _ => false,
    }
}

/// As `gives`, the value taken by its view.
pub open spec fn shows<T: View>(r: Result<T, Error>, want: Result<T::V, Seq<char>>) -> bool {
    match (r, want) {
        (Ok(a), Ok(b)) => a@ == b,
        (Err(e), Err(m)) => says(e, m),
        _ => false,
    }
}

// ----------------------------------------------------------------------------
// Records
// ----------------------------------------------------------------------------

/// One manifest line: a tag, then whitespace-separated fields.
#[derive(Debug, Clone)]
pub struct Record {
    /// 1-based line number in manifest.txt.
    pub line: usize,
    pub tag: String,
    /// Every field after the tag, `k=v` ones included.
    pub fields: Vec<String>,
    /// The line as written.
    pub text: String,
}

pub struct RecordView {
    pub line: nat,
    pub tag: Seq<char>,
    pub fields: Seq<Seq<char>>,
    pub text: Seq<char>,
}

impl View for Record {
    type V = RecordView;

    open spec fn view(&self) -> RecordView {
        RecordView { line: self.line as nat, tag: self.tag@, fields: texts(self.fields@), text: self.text@ }
    }
}

/// The record that line number `line`, holding `text`, is; none for a
/// blank line and for a comment.
pub open spec fn record_of(line: nat, text: Seq<char>) -> Option<RecordView> {
    let w = words(text);
    if w.len() == 0 || (w[0].len() > 0 && w[0][0] == '#') {
        None
    } else {
        Some(RecordView { line, tag: w[0], fields: w.skip(1), text })
    }
}

/// The value of the last field `key=value`.
pub open spec fn keyed(fields: Seq<Seq<char>>, key: Seq<char>) -> Option<Seq<char>>
    decreases fields.len(),
{
    if fields.len() == 0 {
        None
    } else {
        match split_at_first(fields.last(), '=') {
            Some((k, v)) => if k == key {
                Some(v)
            } else {
                keyed(fields.drop_last(), key)
            },
            None => keyed(fields.drop_last(), key),
        }
    }
}

/// The value of the last of `fields` that is `key=value`.
pub(crate) fn lookup(fields: &Vec<String>, key: &str) -> (r: Option<String>)
    ensures
        match r {
            Some(v) => keyed(texts(fields@), key@) == Some(v@),
            None => keyed(texts(fields@), key@) is None,
        },
{
    let mut i: usize = fields.len();
    proof {
        assert(texts(fields@).take(i as int) =~= texts(fields@));
    }
    while i > 0
        invariant
            i <= fields@.len(),
            keyed(texts(fields@), key@) == keyed(texts(fields@).take(i as int), key@),
        decreases i,
    {
        let ghost t = texts(fields@).take(i as int);
        i -= 1;
        proof {
            assert(t.last() == fields@[i as int]@);
            assert(t.drop_last() =~= texts(fields@).take(i as int));
        }
        if let Some((k, v)) = split_once(fields[i].as_str(), '=') {
            if same(k.as_str(), key) {
                return Some(v);
            }
        }
    }
    None
}

/// `s` after its first `n` words, and without the white space before them.
pub open spec fn after_words(s: Seq<char>, n: nat) -> Seq<char>
    decreases n,
{
    if n == 0 {
        s
    } else {
        let t = s.skip(run(s, spaces()) as int);
        after_words(t.skip(run(t, non_spaces()) as int), (n - 1) as nat)
    }
}

/// `t` is the end of `s`.
pub open spec fn ends(s: Seq<char>, t: Seq<char>) -> bool {
    t.len() <= s.len() && t == s.skip(s.len() - t.len())
}

proof fn ends_through(s: Seq<char>, t: Seq<char>, u: Seq<char>)
    requires
        ends(s, t),
        ends(t, u),
    ensures
        ends(s, u),
{
    assert(u =~= s.skip(s.len() - u.len()));
}

proof fn words_left(s: Seq<char>, n: nat)
    requires
        n <= words(s).len(),
    ensures
        ends(s, after_words(s, n)),
        words(after_words(s, n)) == words(s).skip(n as int),
    decreases n,
{
    if n == 0 {
        assert(s.skip(0) =~= s);
        assert(words(s).skip(0) =~= words(s));
    } else {
        let a = run(s, spaces());
        words_skip_spaces(s, a as int);
        run_bound(s, spaces());
        let t = s.skip(a as int);
        assert(ends(s, t));
        assert(t.len() > 0);
        let b = run(t, non_spaces());
        run_bound(t, non_spaces());
        assert(t[0] == s[a as int]);
        let u = t.skip(b as int);
        assert(ends(t, u));
        ends_through(s, t, u);
        assert(words(t) == seq![t.take(b as int)] + words(u));
        assert(words(t).skip(1) =~= words(u));
        words_left(u, (n - 1) as nat);
        ends_through(s, u, after_words(s, n));
        assert(words(s).skip(n as int) =~= words(u).skip(n - 1));
    }
}

/// What is left of a line after `n` fields is the end of the line, and its
/// words are the fields from there on.
pub proof fn the_rest_is_the_remaining_fields(line: nat, text: Seq<char>, n: nat)
    requires
        record_of(line, text) is Some,
        n <= record_of(line, text)->0.fields.len(),
    ensures
        ends(text, record_of(line, text)->0.rest(n)),
        words(record_of(line, text)->0.rest(n)) == record_of(line, text)->0.fields.skip(n as int),
{
    let r = record_of(line, text)->0;
    words_left(text, n + 1);
    let s = after_words(text, n + 1);
    assert(words(text).skip(n as int + 1) =~= r.fields.skip(n as int));
    if s.len() > 0 && s[0] == ' ' {
        assert(is_space(' '));
        assert(ends(s, s.skip(1)));
        ends_through(text, s, s.skip(1));
    }
}

impl RecordView {
    /// The message of an error pointing at this line.
    pub open spec fn at(self, msg: Seq<char>) -> Seq<char> {
        "manifest.txt:"@ + decimal(self.line) + ": "@ + msg + ", in: "@ + self.text
    }

    pub open spec fn field(self, i: nat) -> Result<Seq<char>, Seq<char>> {
        if i < self.fields.len() {
            Ok(self.fields[i as int])
        } else {
            Err(self.at("expected at least "@ + decimal(i + 1) + " fields"@))
        }
    }

    pub open spec fn field_as<T: FromText>(self, i: nat) -> Result<T, Seq<char>> {
        match self.field(i) {
            Err(m) => Err(m),
            Ok(f) => match T::from_text(f) {
                Some(v) => Ok(v),
                None => Err(self.at("field "@ + decimal(i + 1) + " ("@ + f + ") is malformed"@)),
            },
        }
    }

    /// The text after the first `n` fields, without one separating space.
    pub open spec fn rest(self, n: nat) -> Seq<char> {
        let s = after_words(self.text, n + 1);
        if s.len() > 0 && s[0] == ' ' {
            s.skip(1)
        } else {
            s
        }
    }

    pub open spec fn str(self, key: Seq<char>) -> Result<Seq<char>, Seq<char>> {
        match keyed(self.fields, key) {
            Some(v) => Ok(v),
            None => Err(self.at("`"@ + key + "=` missing"@)),
        }
    }

    pub open spec fn get<T: FromText>(self, key: Seq<char>) -> Result<T, Seq<char>> {
        match self.str(key) {
            Err(m) => Err(m),
            Ok(v) => match T::from_text(v) {
                Some(x) => Ok(x),
                None => Err(self.at("`"@ + key + "="@ + v + "` is malformed"@)),
            },
        }
    }

    pub open spec fn flag(self, key: Seq<char>) -> Result<bool, Seq<char>> {
        match self.str(key) {
            Err(m) => Err(m),
            Ok(v) => if v == "0"@ {
                Ok(false)
            } else if v == "1"@ {
                Ok(true)
            } else {
                Err(self.at("`"@ + key + "="@ + v + "` is not 0 or 1"@))
            },
        }
    }
}

impl Record {
    pub fn parse(line: usize, text: &str) -> (r: Option<Record>)
        ensures
            match r {
                Some(x) => record_of(line as nat, text@) == Some(x@),
                None => record_of(line as nat, text@) is None,
            },
    {
        let c = chars_of(text);
        let w = split_words(&c);
        if w.len() == 0 {
            return None;
        }
        let tag = w[0].clone();
        proof {
            assert(texts(w@)[0] == tag@);
        }
        let head = chars_of(tag.as_str());
        if head.len() > 0 && head[0] == '#' {
            return None;
        }
        let mut fields: Vec<String> = Vec::new();
        let mut i: usize = 1;
        while i < w.len()
            invariant
                1 <= i <= w.len(),
                texts(fields@) == texts(w@).subrange(1, i as int),
            decreases w.len() - i,
        {
            let f = w[i].clone();
            proof {
                texts_push(fields@, f);
                assert(texts(w@).subrange(1, i + 1) =~= texts(w@).subrange(1, i as int).push(texts(w@)[i as int]));
            }
            fields.push(f);
            i += 1;
        }
        proof {
            assert(texts(fields@) =~= texts(w@).skip(1));
        }
        Some(Record { line, tag, fields, text: text.to_owned() })
    }

    /// The line as written.
    pub fn text(&self) -> (r: &str)
        ensures
            r@ == self@.text,
    {
        self.text.as_str()
    }

    /// An error pointing at this line.
    pub fn error(&self, msg: &str) -> (r: Error)
        ensures
            says(r, self@.at(msg@)),
    {
        let n = decimal_of(self.line as u128);
        let a = cat3("manifest.txt:", n.as_str(), ": ");
        Error::Format(a.concat(msg).concat(", in: ").concat(self.text.as_str()))
    }

    /// The `i`th field after the tag.
    pub fn field(&self, i: usize) -> (r: Result<&str, Error>)
        ensures
            shows(r, self@.field(i as nat)),
    {
        proof {
            assert(self@.fields.len() == self.fields@.len());
        }
        if i < self.fields.len() {
            Ok(self.fields[i].as_str())
        } else {
            let n = decimal_of(i as u128 + 1);
            Err(self.error(cat3("expected at least ", n.as_str(), " fields").as_str()))
        }
    }

    pub fn field_as<T: FromText>(&self, i: usize) -> (r: Result<T, Error>)
        ensures
            gives(r, self@.field_as::<T>(i as nat)),
    {
        let f = match self.field(i) {
            Ok(f) => f,
            Err(e) => {
                return Err(e);
            },
        };
        match T::parse_text(f) {
            Some(v) => Ok(v),
            None => {
                let n = decimal_of(i as u128 + 1);
                Err(self.error(cat5("field ", n.as_str(), " (", f, ") is malformed").as_str()))
            },
        }
    }

    /// The text after the first `n` fields (after the tag), spacing inside
    /// it intact -- for a free-text last field, such as a prompt.
    pub fn rest(&self, n: usize) -> (r: String)
        ensures
            r@ == self@.rest(n as nat),
    {
        let c = chars_of(self.text.as_str());
        let mut at: usize = 0;
        let mut k: usize = 0;
        proof {
            assert(c@.skip(0) =~= c@);
        }
        loop
            invariant_except_break
                k <= n,
                after_words(c@, n as nat + 1) == after_words(c@.skip(at as int), (n + 1 - k) as nat),
            invariant
                at <= c.len(),
            ensures
                after_words(c@, n as nat + 1) == c@.skip(at as int),
            decreases n - k,
        {
            let a: usize = space_run(&c, at, true);
            let b: usize = space_run(&c, a, false);
            proof {
                let s = c@.skip(at as int);
                let t = c@.skip(a as int);
                assert(s.skip(a - at) =~= t);
                assert(t.skip(b - a) =~= c@.skip(b as int));
                assert(after_words(s, (n + 1 - k) as nat) == after_words(t.skip(b - a), (n - k) as nat));
            }
            at = b;
            if k == n {
                break;
            }
            k += 1;
        }
        let from: usize = if at < c.len() && c[at] == ' ' {
            at + 1
        } else {
            at
        };
        let r = string_of(&c, from, c.len());
        proof {
            let s = c@.skip(at as int);
            if at < c.len() {
                assert(s.skip(1) =~= c@.skip(at + 1));
            }
            assert(r@ =~= c@.skip(from as int));
        }
        r
    }

    pub fn has(&self, key: &str) -> (r: bool)
        ensures
            r == keyed(self@.fields, key@) is Some,
    {
        match lookup(&self.fields, key) {
            Some(_) => true,
            None => false,
        }
    }

    /// The value of field `key=`.
    pub fn str(&self, key: &str) -> (r: Result<String, Error>)
        ensures
            shows(r, self@.str(key@)),
    {
        match lookup(&self.fields, key) {
            Some(v) => Ok(v),
            None => Err(self.error(cat3("`", key, "=` missing").as_str())),
        }
    }

    pub fn get<T: FromText>(&self, key: &str) -> (r: Result<T, Error>)
        ensures
            gives(r, self@.get::<T>(key@)),
    {
        let v = match self.str(key) {
            Ok(v) => v,
            Err(e) => {
                return Err(e);
            },
        };
        match T::parse_text(v.as_str()) {
            Some(x) => Ok(x),
            None => Err(self.error(cat5("`", key, "=", v.as_str(), "` is malformed").as_str())),
        }
    }

    /// A `key=0` / `key=1` field.
    pub fn flag(&self, key: &str) -> (r: Result<bool, Error>)
        ensures
            gives(r, self@.flag(key@)),
    {
        let v = match self.str(key) {
            Ok(v) => v,
            Err(e) => {
                return Err(e);
            },
        };
        if same(v.as_str(), "0") {
            Ok(false)
        } else if same(v.as_str(), "1") {
            Ok(true)
        } else {
            Err(self.error(cat5("`", key, "=", v.as_str(), "` is not 0 or 1").as_str()))
        }
    }
}

// ----------------------------------------------------------------------------
// Paths
// ----------------------------------------------------------------------------

/// The path of `rel` seen from directory `dir`: `rel` itself where it is
/// absolute, else below `dir`.
pub open spec fn joined(dir: Seq<char>, rel: Seq<char>) -> Seq<char> {
    if dir.len() == 0 || (rel.len() > 0 && rel[0] == '/') {
        rel
    } else if dir.last() == '/' {
        dir + rel
    } else {
        dir + "/"@ + rel
    }
}

pub fn join(dir: &str, rel: &str) -> (r: String)
    ensures
        r@ == joined(dir@, rel@),
{
    let n: usize = dir.unicode_len();
    if n == 0 || (rel.unicode_len() > 0 && rel.get_char(0) == '/') {
        rel.to_owned()
    } else if dir.get_char(n - 1) == '/' {
        cat2(dir, rel)
    } else {
        cat3(dir, "/", rel)
    }
}

// ----------------------------------------------------------------------------
// The manifest
// ----------------------------------------------------------------------------

/// A hardware context: an xclbin and the kernel name inside it.
#[derive(Debug, Clone)]
pub struct Xclbin {
    pub key: String,
    pub path: String,
    pub kernel: String,
}

pub struct XclbinView {
    pub key: Seq<char>,
    pub path: Seq<char>,
    pub kernel: Seq<char>,
}

impl View for Xclbin {
    type V = XclbinView;

    open spec fn view(&self) -> XclbinView {
        XclbinView { key: self.key@, path: self.path@, kernel: self.kernel@ }
    }
}

#[derive(Debug)]
pub struct Manifest {
    pub dir: String,
    pub version: u32,
    pub records: Vec<Record>,
    pub params: Dict<String>,
    pub xclbins: Dict<Xclbin>,
}

/// What a manifest says.
pub struct ManifestView {
    pub dir: Seq<char>,
    pub version: u32,
    pub records: Seq<RecordView>,
    pub params: Map<Seq<char>, Seq<char>>,
    pub xclbins: Map<Seq<char>, XclbinView>,
}

pub open spec fn record_views(s: Seq<Record>) -> Seq<RecordView> {
    s.map_values(|r: Record| r@)
}

impl View for Manifest {
    type V = ManifestView;

    open spec fn view(&self) -> ManifestView {
        ManifestView {
            dir: self.dir@,
            version: self.version,
            records: record_views(self.records@),
            params: self.params@,
            xclbins: self.xclbins@,
        }
    }
}

/// What the lines read so far say.
pub struct Reading {
    pub version: Option<u32>,
    pub records: Seq<RecordView>,
    pub params: Map<Seq<char>, Seq<char>>,
    pub xclbins: Map<Seq<char>, XclbinView>,
}

impl Reading {
    /// After a `version` record.
    pub open spec fn with_version(self, r: RecordView) -> Result<Reading, Seq<char>> {
        if self.version is Some {
            Err(r.at("second version record"@))
        } else {
            match r.field_as::<u32>(0) {
                Err(m) => Err(m),
                Ok(v) => Ok(Reading { version: Some(v), ..self }),
            }
        }
    }

    /// After a `param` record.
    pub open spec fn with_param(self, r: RecordView) -> Result<Reading, Seq<char>> {
        match (r.field(0), r.field(1)) {
            (Err(m), _) => Err(m),
            (_, Err(m)) => Err(m),
            (Ok(k), Ok(_)) => if self.params.contains_key(k) {
                Err(r.at("param "@ + k + " defined twice"@))
            } else {
                Ok(Reading { params: self.params.insert(k, r.rest(1)), ..self })
            },
        }
    }

    /// After an `xclbin` record.
    pub open spec fn with_xclbin(self, r: RecordView, dir: Seq<char>) -> Result<Reading, Seq<char>> {
        match (r.field(0), r.field(1), r.field(2)) {
            (Err(m), _, _) => Err(m),
            (_, Err(m), _) => Err(m),
            (_, _, Err(m)) => Err(m),
            (Ok(key), Ok(file), Ok(kernel)) => if self.xclbins.contains_key(key) {
                Err(r.at("xclbin "@ + key + " defined twice"@))
            } else {
                Ok(Reading { xclbins: self.xclbins.insert(key, XclbinView { key, path: joined(dir, file), kernel }), ..self })
            },
        }
    }

    pub open spec fn with(self, r: RecordView, dir: Seq<char>) -> Result<Reading, Seq<char>> {
        if r.tag == "version"@ {
            self.with_version(r)
        } else if r.tag == "param"@ {
            self.with_param(r)
        } else if r.tag == "xclbin"@ {
            self.with_xclbin(r, dir)
        } else {
            Ok(Reading { records: self.records.push(r), ..self })
        }
    }
}

/// What `ls`, the first lines of a manifest in `dir`, say, or the message
/// of the first error in them.
pub open spec fn reading(ls: Seq<Seq<char>>, dir: Seq<char>) -> Result<Reading, Seq<char>>
    decreases ls.len(),
{
    if ls.len() == 0 {
        Ok(Reading { version: None, records: seq![], params: Map::empty(), xclbins: Map::empty() })
    } else {
        match reading(ls.drop_last(), dir) {
            Err(m) => Err(m),
            Ok(st) => match record_of(ls.len(), ls.last()) {
                None => Ok(st),
                Some(r) => st.with(r, dir),
            },
        }
    }
}

/// The manifest that `text`, found in `dir`, is to a runtime that reads
/// format `version`.
pub open spec fn manifest_of(dir: Seq<char>, text: Seq<char>, version: u32) -> Result<ManifestView, Seq<char>> {
    match reading(lines(text), dir) {
        Err(m) => Err(m),
        Ok(st) => if st.version == Some(version) {
            Ok(ManifestView { dir, version, records: st.records, params: st.params, xclbins: st.xclbins })
        } else {
            let found = match st.version {
                None => "no version record"@,
                Some(v) => "version "@ + decimal(v as nat),
            };
            Err(
                joined(dir, "manifest.txt"@) + ": "@ + found + ", this runtime reads version "@ + decimal(
                    version as nat,
                ) + "; re-export the bundle"@,
            )
        },
    }
}

/// The first error of a manifest is the error of the whole.
pub proof fn reading_error(ls: Seq<Seq<char>>, n: int, dir: Seq<char>)
    requires
        0 <= n <= ls.len(),
        reading(ls.take(n), dir) is Err,
    ensures
        reading(ls, dir) == reading(ls.take(n), dir),
    decreases ls.len() - n,
{
    if n < ls.len() {
        assert(ls.take(n + 1).drop_last() =~= ls.take(n));
        reading_error(ls, n + 1, dir);
    } else {
        assert(ls.take(n) =~= ls);
    }
}

impl ManifestView {
    pub open spec fn param(self, k: Seq<char>) -> Result<Seq<char>, Seq<char>> {
        if self.params.contains_key(k) {
            Ok(self.params[k])
        } else {
            Err("param "@ + k + " missing from the manifest"@)
        }
    }

    pub open spec fn param_as<T: FromText>(self, k: Seq<char>) -> Result<T, Seq<char>> {
        match self.param(k) {
            Err(m) => Err(m),
            Ok(v) => match T::from_text(v) {
                Some(x) => Ok(x),
                None => Err("param "@ + k + " ("@ + v + ") is malformed"@),
            },
        }
    }

    /// A param that denotes a real number, as written.
    pub open spec fn real_param(self, k: Seq<char>) -> Result<Seq<char>, Seq<char>> {
        match self.param(k) {
            Err(m) => Err(m),
            Ok(v) => if is_real(v) {
                Ok(v)
            } else {
                Err("param "@ + k + " ("@ + v + ") is malformed"@)
            },
        }
    }

    pub open spec fn list<T: FromText>(self, k: Seq<char>) -> Result<Seq<T>, Seq<char>> {
        match self.param(k) {
            Err(m) => Err(m),
            Ok(v) => items_of::<T>(pieces(v, ','), k),
        }
    }

    pub open spec fn xclbin(self, k: Seq<char>) -> Result<XclbinView, Seq<char>> {
        if self.xclbins.contains_key(k) {
            Ok(self.xclbins[k])
        } else {
            Err("xclbin "@ + k + " missing from the manifest"@)
        }
    }
}

/// The values of the non-empty pieces `p` of list param `k`.
pub open spec fn items_of<T: FromText>(p: Seq<Seq<char>>, k: Seq<char>) -> Result<Seq<T>, Seq<char>>
    decreases p.len(),
{
    if p.len() == 0 {
        Ok(seq![])
    } else {
        match items_of::<T>(p.drop_last(), k) {
            Err(m) => Err(m),
            Ok(s) => if p.last().len() == 0 {
                Ok(s)
            } else {
                match T::from_text(p.last()) {
                    Some(v) => Ok(s.push(v)),
                    None => Err("param "@ + k + ": bad list item "@ + p.last()),
                }
            },
        }
    }
}

proof fn items_error<T: FromText>(p: Seq<Seq<char>>, n: int, k: Seq<char>)
    requires
        0 <= n <= p.len(),
        items_of::<T>(p.take(n), k) is Err,
    ensures
        items_of::<T>(p, k) == items_of::<T>(p.take(n), k),
    decreases p.len() - n,
{
    if n < p.len() {
        assert(p.take(n + 1).drop_last() =~= p.take(n));
        items_error::<T>(p, n + 1, k);
    } else {
        assert(p.take(n) =~= p);
    }
}

/// The reading state a manifest under construction holds.
spec fn state_of(m: Manifest, seen: Option<u32>) -> Reading {
    Reading { version: seen, records: record_views(m.records@), params: m.params@, xclbins: m.xclbins@ }
}

impl Manifest {
    /// Applies a `param` record.
    fn add_param(&mut self, r: &Record) -> (res: Result<(), Error>)
        ensures
            match (res, state_of(*old(self), None).with_param(r@)) {
                (Ok(_), Ok(st)) => state_of(*final(self), None) == st,
                (Err(e), Err(m)) => says(e, m),
                _ => false,
            },
            final(self).dir == old(self).dir,
    {
        let k = match r.field(0) {
            Ok(k) => k.to_owned(),
            Err(e) => {
                return Err(e);
            },
        };
        match r.field(1) {
            Ok(_) => {},
            Err(e) => {
                return Err(e);
            },
        }
        let msg = cat3("param ", k.as_str(), " defined twice");
        if self.params.insert(k, r.rest(1)) {
            return Err(r.error(msg.as_str()));
        }
        Ok(())
    }

    /// Applies an `xclbin` record.
    fn add_xclbin(&mut self, r: &Record) -> (res: Result<(), Error>)
        ensures
            match (res, state_of(*old(self), None).with_xclbin(r@, old(self).dir@)) {
                (Ok(_), Ok(st)) => state_of(*final(self), None) == st,
                (Err(e), Err(m)) => says(e, m),
                _ => false,
            },
            final(self).dir == old(self).dir,
    {
        let key = match r.field(0) {
            Ok(k) => k.to_owned(),
            Err(e) => {
                return Err(e);
            },
        };
        let path = match r.field(1) {
            Ok(f) => join(self.dir.as_str(), f),
            Err(e) => {
                return Err(e);
            },
        };
        let kernel = match r.field(2) {
            Ok(k) => k.to_owned(),
            Err(e) => {
                return Err(e);
            },
        };
        if self.xclbins.has(key.as_str()) {
            return Err(r.error(cat3("xclbin ", key.as_str(), " defined twice").as_str()));
        }
        let x = Xclbin { key: key.clone(), path, kernel };
        self.xclbins.insert(key, x);
        Ok(())
    }

    /// The manifest that `text`, the contents of `<dir>/manifest.txt`, is;
    /// it must be format `version`.
    pub fn load(dir: &str, text: &str, version: u32) -> (res: Result<Manifest, Error>)
        ensures
            shows(res, manifest_of(dir@, text@, version)),
    {
        let ls = split_lines(text);
        let mut m = Manifest {
            dir: dir.to_owned(),
            version: 0,
            records: Vec::new(),
            params: Dict::new(),
            xclbins: Dict::new(),
        };
        let mut seen: Option<u32> = None;
        let mut i: usize = 0;
        let ghost all = texts(ls@);
        proof {
            assert(all.take(0) =~= seq![]);
            assert(record_views(m.records@) =~= seq![]);
        }
        while i < ls.len()
            invariant
                i <= ls.len(),
                all == texts(ls@),
                all == lines(text@),
                m.dir@ == dir@,
                reading(all.take(i as int), dir@) == Ok::<Reading, Seq<char>>(state_of(m, seen)),
            decreases ls.len() - i,
        {
            let ghost st = state_of(m, seen);
            let ghost next = all.take(i + 1);
            proof {
                assert(next.drop_last() =~= all.take(i as int));
                assert(next.last() == ls@[i as int]@);
                if reading(next, dir@) is Err {
                    reading_error(all, i + 1, dir@);
                }
            }
            if let Some(r) = Record::parse(i + 1, ls[i].as_str()) {
                if same(r.tag.as_str(), "version") {
                    if seen.is_some() {
                        return Err(r.error("second version record"));
                    }
                    match r.field_as::<u32>(0) {
                        Ok(v) => {
                            seen = Some(v);
                        },
                        Err(e) => {
                            return Err(e);
                        },
                    }
                } else if same(r.tag.as_str(), "param") {
                    match m.add_param(&r) {
                        Ok(_) => {},
                        Err(e) => {
                            return Err(e);
                        },
                    }
                } else if same(r.tag.as_str(), "xclbin") {
                    match m.add_xclbin(&r) {
                        Ok(_) => {},
                        Err(e) => {
                            return Err(e);
                        },
                    }
                } else {
                    proof {
                        assert(record_views(m.records@.push(r)) =~= record_views(m.records@).push(r@));
                    }
                    m.records.push(r);
                }
            }
            i += 1;
        }
        proof {
            assert(all.take(i as int) =~= all);
        }
        if let Some(v) = seen {
            if v == version {
                m.version = v;
                return Ok(m);
            }
        }
        let found = match seen {
            None => "no version record".to_owned(),
            Some(v) => cat2("version ", decimal_of(v as u128).as_str()),
        };
        let path = join(dir, "manifest.txt");
        let want = decimal_of(version as u128);
        Err(
            Error::Format(
                cat5(path.as_str(), ": ", found.as_str(), ", this runtime reads version ", want.as_str()).concat(
                    "; re-export the bundle",
                ),
            ),
        )
    }

    /// Every model-specific record (not `version` / `param` / `xclbin`), in
    /// file order.
    pub fn records(&self) -> (r: &[Record])
        ensures
            record_views(r@) == self@.records,
    {
        self.records.as_slice()
    }

    /// The records tagged `tag`, in file order, by their index in `records`.
    pub fn tagged(&self, tag: &str) -> (r: Vec<usize>)
        ensures
            r@.map_values(|i: usize| i as int) == Seq::new(self@.records.len(), |i: int| i).filter(
                |i: int| self@.records[i].tag == tag@,
            ),
    {
        let ghost p = |i: int| self@.records[i].tag == tag@;
        let ghost all = Seq::new(self@.records.len(), |i: int| i);
        let mut r: Vec<usize> = Vec::new();
        let mut i: usize = 0;
        proof {
            assert(all.take(0) =~= seq![]);
            reveal(Seq::filter);
            assert(r@.map_values(|i: usize| i as int) =~= seq![]);
        }
        while i < self.records.len()
            invariant
                i <= self.records@.len(),
                all == Seq::new(self@.records.len(), |i: int| i),
                p == (|i: int| self@.records[i].tag == tag@),
                r@.map_values(|i: usize| i as int) == all.take(i as int).filter(p),
            decreases self.records@.len() - i,
        {
            proof {
                reveal(Seq::filter);
                assert(all.take(i + 1).drop_last() =~= all.take(i as int));
                assert(all.take(i + 1).last() == i as int);
                assert(r@.push(i).map_values(|i: usize| i as int) =~= r@.map_values(|i: usize| i as int).push(i as int));
            }
            if same(self.records[i].tag.as_str(), tag) {
                r.push(i);
            }
            i += 1;
        }
        proof {
            assert(all.take(i as int) =~= all);
        }
        r
    }

    /// A bundle-relative path.
    pub fn path(&self, rel: &str) -> (r: String)
        ensures
            r@ == joined(self@.dir, rel@),
    {
        join(self.dir.as_str(), rel)
    }

    pub fn has_param(&self, k: &str) -> (r: bool)
        ensures
            r == self@.params.contains_key(k@),
    {
        self.params.has(k)
    }

    pub fn param(&self, k: &str) -> (r: Result<&str, Error>)
        ensures
            shows(r, self@.param(k@)),
    {
        match self.params.get(k) {
            Some(v) => Ok(v.as_str()),
            None => Err(Error::Format(cat3("param ", k, " missing from the manifest"))),
        }
    }

    pub fn param_as<T: FromText>(&self, k: &str) -> (r: Result<T, Error>)
        ensures
            gives(r, self@.param_as::<T>(k@)),
    {
        let v = match self.param(k) {
            Ok(v) => v,
            Err(e) => {
                return Err(e);
            },
        };
        match T::parse_text(v) {
            Some(x) => Ok(x),
            None => Err(Error::Format(cat5("param ", k, " (", v, ") is malformed"))),
        }
    }

    /// A param that must denote a real number, as written.
    pub fn real_param(&self, k: &str) -> (r: Result<String, Error>)
        ensures
            shows(r, self@.real_param(k@)),
    {
        let v = match self.param(k) {
            Ok(v) => v,
            Err(e) => {
                return Err(e);
            },
        };
        if denotes_real(v) {
            Ok(v.to_owned())
        } else {
            Err(Error::Format(cat5("param ", k, " (", v, ") is malformed")))
        }
    }

    /// A comma-separated param (empty items skipped, so `""` is `[]`).
    pub fn list<T: FromText>(&self, k: &str) -> (r: Result<Vec<T>, Error>)
        ensures
            match (r, self@.list::<T>(k@)) {
                (Ok(v), Ok(s)) => v@ == s,
                (Err(e), Err(m)) => says(e, m),
                _ => false,
            },
    {
        let v = match self.param(k) {
            Ok(v) => v,
            Err(e) => {
                return Err(e);
            },
        };
        let p = split_pieces(v, ',');
        let ghost all = texts(p@);
        let mut out: Vec<T> = Vec::new();
        let mut i: usize = 0;
        proof {
            assert(all.take(0) =~= seq![]);
        }
        while i < p.len()
            invariant
                i <= p.len(),
                all == texts(p@),
                self@.list::<T>(k@) == items_of::<T>(all, k@),
                items_of::<T>(all.take(i as int), k@) == Ok::<Seq<T>, Seq<char>>(out@),
            decreases p.len() - i,
        {
            let s = p[i].as_str();
            proof {
                assert(all.take(i + 1).drop_last() =~= all.take(i as int));
                assert(all.take(i + 1).last() == s@);
                if items_of::<T>(all.take(i + 1), k@) is Err {
                    items_error::<T>(all, i + 1, k@);
                }
            }
            if s.unicode_len() > 0 {
                match T::parse_text(s) {
                    Some(x) => {
                        out.push(x);
                    },
                    None => {
                        return Err(Error::Format(cat2("param ", k).concat(": bad list item ").concat(s)));
                    },
                }
            }
            i += 1;
        }
        proof {
            assert(all.take(i as int) =~= all);
        }
        Ok(out)
    }

    pub fn xclbin(&self, key: &str) -> (r: Result<&Xclbin, Error>)
        ensures
            shows(r, self@.xclbin(key@)),
    {
        match self.xclbins.get(key) {
            Some(x) => Ok(x),
            None => Err(Error::Format(cat3("xclbin ", key, " missing from the manifest"))),
        }
    }

    /// Every hardware context, in file order.
    pub fn xclbins(&self) -> (r: &Dict<Xclbin>)
        ensures
            r@ == self@.xclbins,
    {
        &self.xclbins
    }
}

} // verus!
