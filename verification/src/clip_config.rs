//! CLIP's model constants and the settings of its tokenizer and image
//! preparation, from the manifest's `param` records.

use crate::manifest::{record_views, Manifest, ManifestView, RecordView};
use crate::sam3::{faults, reads, Error};
use crate::text::{
    cat3, cat4, decimal, decimal_of, denotes_real, is_real, pieces, same, split_pieces, texts, texts_push,
};
use vstd::prelude::*;

verus! {

pub const VERSION: u32 = 1;

/// Model constants.
#[derive(Debug)]
pub struct Config {
    pub v_layers: usize,
    pub v_dim: usize,
    pub v_tokens: usize,
    /// Rows between images.
    pub v_stride: usize,
    pub v_batch: usize,
    pub v_rows: usize,
    pub v_mha_rows: usize,
    /// A real number, as written.
    pub v_eps: String,
    pub patch: usize,
    pub image_size: usize,
    pub t_layers: usize,
    pub t_dim: usize,
    pub t_batch: usize,
    pub t_seq_pad: usize,
    pub t_rows: usize,
    /// A real number, as written.
    pub t_eps: String,
    pub context: usize,
    pub embed_dim: usize,
    /// A real number, as written.
    pub logit_scale: String,
    /// The end token is the one with the highest id, not the first `eos`.
    pub eos_argmax: bool,
    pub prompt_template: String,
}

#[verifier::ext_equal]
pub struct ConfigView {
    pub v_layers: usize,
    pub v_dim: usize,
    pub v_tokens: usize,
    pub v_stride: usize,
    pub v_batch: usize,
    pub v_rows: usize,
    pub v_mha_rows: usize,
    pub v_eps: Seq<char>,
    pub patch: usize,
    pub image_size: usize,
    pub t_layers: usize,
    pub t_dim: usize,
    pub t_batch: usize,
    pub t_seq_pad: usize,
    pub t_rows: usize,
    pub t_eps: Seq<char>,
    pub context: usize,
    pub embed_dim: usize,
    pub logit_scale: Seq<char>,
    pub eos_argmax: bool,
    pub prompt_template: Seq<char>,
}

impl View for Config {
    type V = ConfigView;

    open spec fn view(&self) -> ConfigView {
        ConfigView {
            v_layers: self.v_layers,
            v_dim: self.v_dim,
            v_tokens: self.v_tokens,
            v_stride: self.v_stride,
            v_batch: self.v_batch,
            v_rows: self.v_rows,
            v_mha_rows: self.v_mha_rows,
            v_eps: self.v_eps@,
            patch: self.patch,
            image_size: self.image_size,
            t_layers: self.t_layers,
            t_dim: self.t_dim,
            t_batch: self.t_batch,
            t_seq_pad: self.t_seq_pad,
            t_rows: self.t_rows,
            t_eps: self.t_eps@,
            context: self.context,
            embed_dim: self.embed_dim,
            logit_scale: self.logit_scale@,
            eos_argmax: self.eos_argmax,
            prompt_template: self.prompt_template@,
        }
    }
}

/// The params, read in order: the first that is missing or malformed is
/// reported.
pub open spec fn config_of(m: ManifestView) -> Result<ConfigView, Seq<char>> {
    match (
        m.param_as::<usize>("v_layers"@),
        m.param_as::<usize>("v_dim"@),
        m.param_as::<usize>("v_tokens"@),
        m.param_as::<usize>("v_stride"@),
        m.param_as::<usize>("v_batch"@),
        m.param_as::<usize>("v_rows"@),
        m.param_as::<usize>("v_mha_rows"@),
    ) {
        (Err(e), _, _, _, _, _, _) => Err(e),
        (_, Err(e), _, _, _, _, _) => Err(e),
        (_, _, Err(e), _, _, _, _) => Err(e),
        (_, _, _, Err(e), _, _, _) => Err(e),
        (_, _, _, _, Err(e), _, _) => Err(e),
        (_, _, _, _, _, Err(e), _) => Err(e),
        (_, _, _, _, _, _, Err(e)) => Err(e),
        (Ok(v_layers), Ok(v_dim), Ok(v_tokens), Ok(v_stride), Ok(v_batch), Ok(v_rows), Ok(v_mha_rows)) => {
            match (
                m.real_param("v_eps"@),
                m.param_as::<usize>("patch"@),
                m.param_as::<usize>("image_size"@),
                m.param_as::<usize>("t_layers"@),
                m.param_as::<usize>("t_dim"@),
                m.param_as::<usize>("t_batch"@),
                m.param_as::<usize>("t_seq_pad"@),
            ) {
                (Err(e), _, _, _, _, _, _) => Err(e),
                (_, Err(e), _, _, _, _, _) => Err(e),
                (_, _, Err(e), _, _, _, _) => Err(e),
                (_, _, _, Err(e), _, _, _) => Err(e),
                (_, _, _, _, Err(e), _, _) => Err(e),
                (_, _, _, _, _, Err(e), _) => Err(e),
                (_, _, _, _, _, _, Err(e)) => Err(e),
                (Ok(v_eps), Ok(patch), Ok(image_size), Ok(t_layers), Ok(t_dim), Ok(t_batch), Ok(t_seq_pad)) => {
                    match (
                        m.param_as::<usize>("t_rows"@),
                        m.real_param("t_eps"@),
                        m.param_as::<usize>("context"@),
                        m.param_as::<usize>("embed_dim"@),
                        m.real_param("logit_scale"@),
                        m.param_as::<usize>("eos_argmax"@),
                        m.param("prompt_template"@),
                    ) {
                        (Err(e), _, _, _, _, _, _) => Err(e),
                        (_, Err(e), _, _, _, _, _) => Err(e),
                        (_, _, Err(e), _, _, _, _) => Err(e),
                        (_, _, _, Err(e), _, _, _) => Err(e),
                        (_, _, _, _, Err(e), _, _) => Err(e),
                        (_, _, _, _, _, Err(e), _) => Err(e),
                        (_, _, _, _, _, _, Err(e)) => Err(e),
                        (Ok(t_rows), Ok(t_eps), Ok(context), Ok(embed_dim), Ok(logit_scale), Ok(eos_argmax), Ok(prompt_template)) => Ok(
                            ConfigView {
                                v_layers,
                                v_dim,
                                v_tokens,
                                v_stride,
                                v_batch,
                                v_rows,
                                v_mha_rows,
                                v_eps,
                                patch,
                                image_size,
                                t_layers,
                                t_dim,
                                t_batch,
                                t_seq_pad,
                                t_rows,
                                t_eps,
                                context,
                                embed_dim,
                                logit_scale,
                                eos_argmax: eos_argmax != 0,
                                prompt_template,
                            },
                        ),
                    }
                },
            }
        },
    }
}

fn number(m: &Manifest, k: &str) -> (r: Result<usize, Error>)
    ensures
        reads(r, m@.param_as::<usize>(k@)),
{
    match m.param_as::<usize>(k) {
        Ok(v) => Ok(v),
        Err(e) => Err(Error::Bundle(e.message())),
    }
}

fn word(m: &Manifest, k: &str) -> (r: Result<u32, Error>)
    ensures
        reads(r, m@.param_as::<u32>(k@)),
{
    match m.param_as::<u32>(k) {
        Ok(v) => Ok(v),
        Err(e) => Err(Error::Bundle(e.message())),
    }
}

fn real_of(m: &Manifest, k: &str) -> (r: Result<String, Error>)
    ensures
        reads(r, m@.real_param(k@)),
{
    match m.real_param(k) {
        Ok(v) => Ok(v),
        Err(e) => Err(Error::Bundle(e.message())),
    }
}

fn plain(m: &Manifest, k: &str) -> (r: Result<String, Error>)
    ensures
        reads(r, m@.param(k@)),
{
    match m.param(k) {
        Ok(v) => Ok(v.to_owned()),
        Err(e) => Err(Error::Bundle(e.message())),
    }
}

impl Config {
    pub fn load(m: &Manifest) -> (r: Result<Config, Error>)
        ensures
            reads(r, config_of(m@)),
    {
        Ok(
            Config {
                v_layers: number(m, "v_layers")?,
                v_dim: number(m, "v_dim")?,
                v_tokens: number(m, "v_tokens")?,
                v_stride: number(m, "v_stride")?,
                v_batch: number(m, "v_batch")?,
                v_rows: number(m, "v_rows")?,
                v_mha_rows: number(m, "v_mha_rows")?,
                v_eps: real_of(m, "v_eps")?,
                patch: number(m, "patch")?,
                image_size: number(m, "image_size")?,
                t_layers: number(m, "t_layers")?,
                t_dim: number(m, "t_dim")?,
                t_batch: number(m, "t_batch")?,
                t_seq_pad: number(m, "t_seq_pad")?,
                t_rows: number(m, "t_rows")?,
                t_eps: real_of(m, "t_eps")?,
                context: number(m, "context")?,
                embed_dim: number(m, "embed_dim")?,
                logit_scale: real_of(m, "logit_scale")?,
                eos_argmax: number(m, "eos_argmax")? != 0,
                prompt_template: plain(m, "prompt_template")?,
            },
        )
    }

    /// Patches a side (16 for 224 / 14).
    pub fn grid(&self) -> (r: usize)
        requires
            self.patch > 0,
        ensures
            r == self.image_size as int / self.patch as int,
    {
        self.image_size / self.patch
    }
}

// ----------------------------------------------------------------------------
// Settings
// ----------------------------------------------------------------------------

/// What the tokenizer and the image preparation are set up with.
#[derive(Debug)]
pub struct Settings {
    pub bos: u32,
    pub eos: u32,
    pub pad: u32,
    pub shortest: usize,
    pub crop: usize,
    /// Three real numbers, as written.
    pub mean: Vec<String>,
    /// Three real numbers, as written.
    pub std: Vec<String>,
}

pub struct SettingsView {
    pub bos: u32,
    pub eos: u32,
    pub pad: u32,
    pub shortest: usize,
    pub crop: usize,
    pub mean: Seq<Seq<char>>,
    pub std: Seq<Seq<char>>,
}

impl View for Settings {
    type V = SettingsView;

    open spec fn view(&self) -> SettingsView {
        SettingsView {
            bos: self.bos,
            eos: self.eos,
            pad: self.pad,
            shortest: self.shortest,
            crop: self.crop,
            mean: texts(self.mean@),
            std: texts(self.std@),
        }
    }
}

/// The non-empty pieces `p` of list param `k`, which must denote real
/// numbers.
pub open spec fn reals_of(p: Seq<Seq<char>>, k: Seq<char>) -> Result<Seq<Seq<char>>, Seq<char>>
    decreases p.len(),
{
    if p.len() == 0 {
        Ok(seq![])
    } else {
        match reals_of(p.drop_last(), k) {
            Err(m) => Err(m),
            Ok(s) => if p.last().len() == 0 {
                Ok(s)
            } else if is_real(p.last()) {
                Ok(s.push(p.last()))
            } else {
                Err("param "@ + k + ": bad list item "@ + p.last())
            },
        }
    }
}

/// The three real numbers of list param `k`.
pub open spec fn three_of(m: ManifestView, k: Seq<char>) -> Result<Seq<Seq<char>>, Seq<char>> {
    match m.param(k) {
        Err(e) => Err(e),
        Ok(v) => match reals_of(pieces(v, ','), k) {
            Err(e) => Err(e),
            Ok(s) => if s.len() == 3 {
                Ok(s)
            } else {
                Err("param "@ + k + ": expected 3 values"@)
            },
        },
    }
}

/// The settings, for a model whose images have `image_size` pixels a side.
pub open spec fn settings_of(m: ManifestView, image_size: usize) -> Result<SettingsView, Seq<char>> {
    match (
        m.param_as::<u32>("bos"@),
        m.param_as::<u32>("eos"@),
        m.param_as::<u32>("pad"@),
        m.param_as::<usize>("resize_shortest"@),
        m.param_as::<usize>("crop"@),
        three_of(m, "mean"@),
        three_of(m, "std"@),
    ) {
        (Err(e), _, _, _, _, _, _) => Err(e),
        (_, Err(e), _, _, _, _, _) => Err(e),
        (_, _, Err(e), _, _, _, _) => Err(e),
        (_, _, _, Err(e), _, _, _) => Err(e),
        (_, _, _, _, Err(e), _, _) => Err(e),
        (_, _, _, _, _, Err(e), _) => Err(e),
        (_, _, _, _, _, _, Err(e)) => Err(e),
        (Ok(bos), Ok(eos), Ok(pad), Ok(shortest), Ok(crop), Ok(mean), Ok(std)) => if crop != image_size {
            Err("crop size != image size"@)
        } else {
            Ok(SettingsView { bos, eos, pad, shortest, crop, mean, std })
        },
    }
}

proof fn reals_error(p: Seq<Seq<char>>, n: int, k: Seq<char>)
    requires
        0 <= n <= p.len(),
        reals_of(p.take(n), k) is Err,
    ensures
        reals_of(p, k) == reals_of(p.take(n), k),
    decreases p.len() - n,
{
    if n < p.len() {
        assert(p.take(n + 1).drop_last() =~= p.take(n));
        reals_error(p, n + 1, k);
    } else {
        assert(p.take(n) =~= p);
    }
}

fn three(m: &Manifest, k: &str) -> (r: Result<Vec<String>, Error>)
    ensures
        match (r, three_of(m@, k@)) {
            (Ok(v), Ok(s)) => texts(v@) == s,
            (Err(e), Err(w)) => faults(e, w),
            _ => false,
        },
{
    let v = plain(m, k)?;
    let p = split_pieces(v.as_str(), ',');
    let ghost all = texts(p@);
    let mut out: Vec<String> = Vec::new();
    let mut i: usize = 0;
    proof {
        assert(texts(out@) =~= seq![]);
        assert(all.take(0) =~= seq![]);
    }
    while i < p.len()
        invariant
            i <= p.len(),
            all == texts(p@),
            all == pieces(v@, ','),
            m@.param(k@) == Ok::<Seq<char>, Seq<char>>(v@),
            reals_of(all.take(i as int), k@) == Ok::<Seq<Seq<char>>, Seq<char>>(texts(out@)),
        decreases p.len() - i,
    {
        let s = p[i].as_str();
        proof {
            assert(all.take(i + 1).drop_last() =~= all.take(i as int));
            assert(all.take(i + 1).last() == s@);
            if reals_of(all.take(i + 1), k@) is Err {
                reals_error(all, i + 1, k@);
            }
        }
        if s.unicode_len() > 0 {
            if !denotes_real(s) {
                return Err(Error::Bundle(cat4("param ", k, ": bad list item ", s)));
            }
            let item = s.to_owned();
            proof {
                texts_push(out@, item);
            }
            out.push(item);
        }
        i += 1;
    }
    proof {
        assert(all.take(i as int) =~= all);
        assert(texts(out@).len() == out@.len());
    }
    if out.len() != 3 {
        return Err(Error::Bundle(cat3("param ", k, ": expected 3 values")));
    }
    Ok(out)
}

impl Settings {
    pub fn load(m: &Manifest, cfg: &Config) -> (r: Result<Settings, Error>)
        ensures
            reads(r, settings_of(m@, cfg.image_size)),
    {
        let s = Settings {
            bos: word(m, "bos")?,
            eos: word(m, "eos")?,
            pad: word(m, "pad")?,
            shortest: number(m, "resize_shortest")?,
            crop: number(m, "crop")?,
            mean: three(m, "mean")?,
            std: three(m, "std")?,
        };
        if s.crop != cfg.image_size {
            return Err(Error::Bundle("crop size != image size".to_string()));
        }
        Ok(s)
    }
}

// ----------------------------------------------------------------------------
// Reference sets
// ----------------------------------------------------------------------------

/// Whether record `r` is a `tag` of reference set `set`.
pub open spec fn is_of_set(r: RecordView, tag: Seq<char>, set: nat) -> bool {
    r.tag == tag && r.field(0) == Ok::<Seq<char>, Seq<char>>(decimal(set))
}

/// What the `tag` records of reference set `set` name, in file order: the
/// text after the set and the index.
pub open spec fn names_of_set(rs: Seq<RecordView>, tag: Seq<char>, set: nat) -> Seq<Seq<char>>
    decreases rs.len(),
{
    if rs.len() == 0 {
        Seq::empty()
    } else {
        let before = names_of_set(rs.drop_last(), tag, set);
        if is_of_set(rs.last(), tag, set) {
            before.push(rs.last().rest(2))
        } else {
            before
        }
    }
}

/// What the manifest's `tag` records name for reference set `set`.
pub fn set_names(m: &Manifest, tag: &str, set: usize) -> (r: Vec<String>)
    ensures
        texts(r@) == names_of_set(m@.records, tag@, set as nat),
{
    let records = m.records();
    let ghost all = record_views(records@);
    let want = decimal_of(set as u128);
    let mut out: Vec<String> = Vec::new();
    let mut i: usize = 0;
    proof {
        assert(all.take(0) =~= Seq::empty());
        assert(texts(out@) =~= Seq::empty());
    }
    while i < records.len()
        invariant
            i <= records.len(),
            all == record_views(records@),
            want@ == decimal(set as nat),
            texts(out@) == names_of_set(all.take(i as int), tag@, set as nat),
        decreases records.len() - i,
    {
        let r = &records[i];
        proof {
            assert(all.take(i + 1).drop_last() =~= all.take(i as int));
            assert(all.take(i + 1).last() == r@);
        }
        let own: bool = match r.field(0) {
            Ok(f) => same(f, want.as_str()),
            Err(_) => false,
        };
        if own && same(r.tag.as_str(), tag) {
            let name = r.rest(2);
            proof {
                texts_push(out@, name);
            }
            out.push(name);
        }
        i += 1;
    }
    proof {
        assert(all.take(i as int) =~= all);
    }
    out
}

} // verus!
