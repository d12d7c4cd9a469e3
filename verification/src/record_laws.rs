//! What a manifest's records say is what is read from them: every value is
//! the one written under its name, or at its place.

use crate::clip_config;
use crate::clip_npu;
use crate::gaic_bundle;
use crate::gaic_manifest;
use crate::manifest::{self, joined, keyed, reading, record_of, RecordView};
use crate::sam3_bundle;
use crate::sam3_config;
use crate::sam3_manifest;
use crate::store::{dims_of, dtype_named, entry_of, EntryView};
use crate::text::{other_than, pieces, run_is, split_at_first, starts_with, words, FromText};
use vstd::prelude::*;

verus! {

/// `key=v` is the last of the fields that is written under `key`.
pub open spec fn last_written(fields: Seq<Seq<char>>, key: Seq<char>, v: Seq<char>) -> bool {
    exists|i: int|
        0 <= i < fields.len() && #[trigger] fields[i] == key + "="@ + v && forall|j: int|
            i < j < fields.len() ==> !starts_with(#[trigger] fields[j], key + "="@)
}

/// What is written under `key` reads as `x`.
pub open spec fn written_as<T: FromText>(fields: Seq<Seq<char>>, key: Seq<char>, x: T) -> bool {
    exists|v: Seq<char>| #[trigger] last_written(fields, key, v) && T::from_text(v) == Some(x)
}

/// A switch is written as `1` or `0`.
pub open spec fn switched(fields: Seq<Seq<char>>, key: Seq<char>, on: bool) -> bool {
    last_written(fields, key, if on {
        "1"@
    } else {
        "0"@
    })
}

/// A field is found under its name: the last that is written so.
pub proof fn fields_are_found_by_name(fields: Seq<Seq<char>>, key: Seq<char>)
    requires
        forall|i: int| 0 <= i < key.len() ==> #[trigger] key[i] != '=',
    ensures
        keyed(fields, key) matches Some(v) ==> last_written(fields, key, v),
        keyed(fields, key) is None ==> forall|j: int| 0 <= j < fields.len() ==> !starts_with(#[trigger] fields[j], key + "="@),
    decreases fields.len(),
{
    if fields.len() > 0 {
        let rest = fields.drop_last();
        let f = fields.last();
        fields_are_found_by_name(rest, key);
        field_starts(f, key);
        reveal_strlit("=");
        let n = fields.len() - 1;
        match split_at_first(f, '=') {
            Some((k, v)) if k == key => {
                assert(fields[n] == key + "="@ + v);
                assert(last_written(fields, key, v));
            },
            _ => {
                if let Some(v) = keyed(rest, key) {
                    let i = choose|i: int|
                        0 <= i < rest.len() && #[trigger] rest[i] == key + "="@ + v && forall|j: int|
                            i < j < rest.len() ==> !starts_with(#[trigger] rest[j], key + "="@);
                    assert(fields[i] == key + "="@ + v);
                    assert forall|j: int| i < j < fields.len() implies !starts_with(#[trigger] fields[j], key + "="@) by {
                        if j < n {
                            assert(rest[j] == fields[j]);
                        }
                    }
                    assert(last_written(fields, key, v));
                } else {
                    assert forall|j: int| 0 <= j < fields.len() implies !starts_with(#[trigger] fields[j], key + "="@) by {
                        if j < n {
                            assert(rest[j] == fields[j]);
                        }
                    }
                }
            },
        }
    }
}

proof fn field_starts(f: Seq<char>, key: Seq<char>)
    requires
        forall|i: int| 0 <= i < key.len() ==> #[trigger] key[i] != '=',
    ensures
        match split_at_first(f, '=') {
            Some((k, v)) => f == k + "="@ + v && (starts_with(f, key + "="@) ==> k == key),
            None => !starts_with(f, key + "="@),
        },
{
    reveal_strlit("=");
    let head = key + "="@;
    let n = key.len();
    crate::text::run_bound(f, other_than('='));
    if starts_with(f, head) {
        assert(f.take(head.len() as int) =~= head);
        assert(f[n as int] == head[n as int]);
        assert forall|i: int| 0 <= i < n implies other_than('=')(#[trigger] f[i]) by {
            assert(f[i] == head[i]);
            assert(key[i] != '=');
        }
        run_is(f, other_than('='), n);
        assert(f.take(n as int) =~= key);
    }
    if let Some((k, v)) = split_at_first(f, '=') {
        assert(f =~= k + "="@ + v);
    }
}

/// A GEMM of a bundle has the sizes, the context and the files that its record
/// writes under their names.
pub proof fn a_bundle_s_gemm_is_its_record(m: manifest::ManifestView, r: RecordView, g: sam3_bundle::GemmView)
    requires
        sam3_bundle::gemm_of(m, r) == Ok::<sam3_bundle::GemmView, Seq<char>>(g),
    ensures
        r.fields.len() > 0 && g.key == r.fields[0],
        last_written(r.fields, "ctx"@, g.ctx),
        exists|v: Seq<char>| #[trigger] last_written(r.fields, "insts"@, v) && g.insts == joined(m.dir, v),
        switched(r.fields, "bias"@, g.bias),
        written_as::<usize>(r.fields, "M"@, g.m),
        written_as::<usize>(r.fields, "K"@, g.k),
        written_as::<usize>(r.fields, "N"@, g.n),
        written_as::<usize>(r.fields, "lda"@, g.lda),
        written_as::<usize>(r.fields, "tile_k"@, g.tile_k),
        written_as::<usize>(r.fields, "tile_n"@, g.tile_n),
        written_as::<usize>(r.fields, "ct_k"@, g.ct_k),
        written_as::<usize>(r.fields, "b_bytes"@, g.b_bytes),
{
    reveal_strlit("ctx");
    fields_are_found_by_name(r.fields, "ctx"@);
    reveal_strlit("insts");
    fields_are_found_by_name(r.fields, "insts"@);
    reveal_strlit("bias");
    fields_are_found_by_name(r.fields, "bias"@);
    reveal_strlit("M");
    fields_are_found_by_name(r.fields, "M"@);
    reveal_strlit("K");
    fields_are_found_by_name(r.fields, "K"@);
    reveal_strlit("N");
    fields_are_found_by_name(r.fields, "N"@);
    reveal_strlit("lda");
    fields_are_found_by_name(r.fields, "lda"@);
    reveal_strlit("tile_k");
    fields_are_found_by_name(r.fields, "tile_k"@);
    reveal_strlit("tile_n");
    fields_are_found_by_name(r.fields, "tile_n"@);
    reveal_strlit("ct_k");
    fields_are_found_by_name(r.fields, "ct_k"@);
    reveal_strlit("b_bytes");
    fields_are_found_by_name(r.fields, "b_bytes"@);
}

/// An attention of a bundle likewise.
pub proof fn a_bundle_s_attention_is_its_record(m: manifest::ManifestView, r: RecordView, g: sam3_bundle::MhaView)
    requires
        sam3_bundle::mha_of(m, r) == Ok::<sam3_bundle::MhaView, Seq<char>>(g),
    ensures
        r.fields.len() > 0 && g.key == r.fields[0],
        exists|v: Seq<char>| #[trigger] last_written(r.fields, "xclbin"@, v) && g.xclbin == joined(m.dir, v),
        exists|v: Seq<char>| #[trigger] last_written(r.fields, "insts"@, v) && g.insts == joined(m.dir, v),
        switched(r.fields, "token_major"@, g.token_major),
        written_as::<usize>(r.fields, "heads"@, g.heads),
        written_as::<usize>(r.fields, "seq"@, g.seq),
        written_as::<usize>(r.fields, "d"@, g.d),
        written_as::<usize>(r.fields, "elems"@, g.elems),
{
    reveal_strlit("xclbin");
    fields_are_found_by_name(r.fields, "xclbin"@);
    reveal_strlit("insts");
    fields_are_found_by_name(r.fields, "insts"@);
    reveal_strlit("token_major");
    fields_are_found_by_name(r.fields, "token_major"@);
    reveal_strlit("heads");
    fields_are_found_by_name(r.fields, "heads"@);
    reveal_strlit("seq");
    fields_are_found_by_name(r.fields, "seq"@);
    reveal_strlit("d");
    fields_are_found_by_name(r.fields, "d"@);
    reveal_strlit("elems");
    fields_are_found_by_name(r.fields, "elems"@);
}

/// Another kernel of a bundle likewise.
pub proof fn a_bundle_s_kernel_is_its_record(m: manifest::ManifestView, r: RecordView, g: sam3_bundle::OpView)
    requires
        sam3_bundle::op_of(m, r) == Ok::<sam3_bundle::OpView, Seq<char>>(g),
    ensures
        r.fields.len() > 0 && g.key == r.fields[0],
        exists|v: Seq<char>| #[trigger] last_written(r.fields, "xclbin"@, v) && g.xclbin == joined(m.dir, v),
        exists|v: Seq<char>| #[trigger] last_written(r.fields, "insts"@, v) && g.insts == joined(m.dir, v),
{
    reveal_strlit("xclbin");
    fields_are_found_by_name(r.fields, "xclbin"@);
    reveal_strlit("insts");
    fields_are_found_by_name(r.fields, "insts"@);
}

/// A GEMM of a CLIP bundle has the sizes that its record writes.
pub proof fn a_clip_gemm_is_its_record(r: RecordView, g: clip_npu::GemmView)
    requires
        clip_npu::gemm_of(r) == Ok::<clip_npu::GemmView, Seq<char>>(g),
    ensures
        r.fields.len() > 0 && g.key == r.fields[0],
        written_as::<usize>(r.fields, "M"@, g.m),
        written_as::<usize>(r.fields, "K"@, g.k),
        written_as::<usize>(r.fields, "N"@, g.n),
        written_as::<usize>(r.fields, "b_bytes"@, g.b_bytes),
{
    reveal_strlit("M");
    fields_are_found_by_name(r.fields, "M"@);
    reveal_strlit("K");
    fields_are_found_by_name(r.fields, "K"@);
    reveal_strlit("N");
    fields_are_found_by_name(r.fields, "N"@);
    reveal_strlit("b_bytes");
    fields_are_found_by_name(r.fields, "b_bytes"@);
}

/// Another kernel of a CLIP bundle has the files and the name that its record
/// writes.
pub proof fn a_clip_kernel_is_its_record(m: manifest::ManifestView, r: RecordView, g: clip_npu::LoadView)
    requires
        clip_npu::op_load(m, r) == Ok::<clip_npu::LoadView, Seq<char>>(g),
    ensures
        r.fields.len() > 0 && g.key == r.fields[0],
        exists|v: Seq<char>| #[trigger] last_written(r.fields, "xclbin"@, v) && g.xclbin == joined(m.dir, v),
        exists|v: Seq<char>| #[trigger] last_written(r.fields, "insts"@, v) && g.insts == joined(m.dir, v),
        last_written(r.fields, "name"@, g.name),
{
    reveal_strlit("xclbin");
    fields_are_found_by_name(r.fields, "xclbin"@);
    reveal_strlit("insts");
    fields_are_found_by_name(r.fields, "insts"@);
    reveal_strlit("name");
    fields_are_found_by_name(r.fields, "name"@);
}

/// A GEMM of a CLIP bundle is loaded from the context its record names, and
/// its work is two operations for each product.
pub proof fn a_clip_gemm_loads_from_its_context(m: manifest::ManifestView, r: RecordView, s: clip_npu::GemmView, g: clip_npu::LoadView)
    requires
        clip_npu::gemm_load(m, r, s) == Ok::<clip_npu::LoadView, Seq<char>>(g),
    ensures
        g.key == s.key,
        exists|v: Seq<char>| #[trigger] last_written(r.fields, "insts"@, v) && g.insts == joined(m.dir, v),
        exists|c: Seq<char>| #[trigger] last_written(r.fields, "ctx"@, c) && (m.xclbin(c) matches Ok(x) && g.xclbin == x.path && g.name == x.kernel),
        g.ops == 2 * (s.m * s.k * s.n),
{
    reveal_strlit("insts");
    fields_are_found_by_name(r.fields, "insts"@);
    reveal_strlit("ctx");
    fields_are_found_by_name(r.fields, "ctx"@);
}

/// A kernel of a GAIC bundle has the sizes and the files that its record writes.
pub proof fn a_gaic_kernel_is_its_record(m: manifest::ManifestView, seen: Seq<gaic_bundle::KernelView>, r: RecordView, g: gaic_bundle::KernelView)
    requires
        gaic_bundle::kernel_of(m, seen, r) == Ok::<gaic_bundle::KernelView, Seq<char>>(g),
    ensures
        r.fields.len() > 0 && g.key == r.fields[0],
        exists|v: Seq<char>| #[trigger] last_written(r.fields, "insts"@, v) && g.insts == joined(m.dir, v),
        written_as::<usize>(r.fields, "M"@, g.m),
        written_as::<usize>(r.fields, "K"@, g.k),
        written_as::<usize>(r.fields, "N"@, g.n),
        written_as::<usize>(r.fields, "a_elems"@, g.a_elems),
        written_as::<usize>(r.fields, "b_bytes"@, g.b_bytes),
        written_as::<usize>(r.fields, "c_elems"@, g.c_elems),
{
    reveal_strlit("insts");
    fields_are_found_by_name(r.fields, "insts"@);
    reveal_strlit("M");
    fields_are_found_by_name(r.fields, "M"@);
    reveal_strlit("K");
    fields_are_found_by_name(r.fields, "K"@);
    reveal_strlit("N");
    fields_are_found_by_name(r.fields, "N"@);
    reveal_strlit("a_elems");
    fields_are_found_by_name(r.fields, "a_elems"@);
    reveal_strlit("b_bytes");
    fields_are_found_by_name(r.fields, "b_bytes"@);
    reveal_strlit("c_elems");
    fields_are_found_by_name(r.fields, "c_elems"@);
}

/// A layer of a GAIC bundle has the sizes, the kernel and the tensors that its
/// record writes.
pub proof fn a_gaic_layer_is_its_record(seen: Seq<gaic_bundle::ConvView>, r: RecordView, g: gaic_bundle::ConvView)
    requires
        gaic_bundle::conv_of(seen, r) == Ok::<gaic_bundle::ConvView, Seq<char>>(g),
    ensures
        r.fields.len() > 0 && g.name == r.fields[0],
        last_written(r.fields, "kernel"@, g.kernel),
        last_written(r.fields, "b"@, g.b),
        last_written(r.fields, "bias"@, g.bias),
        switched(r.fields, "pool_before"@, g.pool_before),
        switched(r.fields, "window"@, g.window),
        written_as::<usize>(r.fields, "C"@, g.c),
        written_as::<usize>(r.fields, "OC"@, g.oc),
        written_as::<usize>(r.fields, "m_chunk"@, g.m_chunk),
        written_as::<usize>(r.fields, "P"@, g.p),
        written_as::<usize>(r.fields, "D"@, g.d),
{
    reveal_strlit("kernel");
    fields_are_found_by_name(r.fields, "kernel"@);
    reveal_strlit("b");
    fields_are_found_by_name(r.fields, "b"@);
    reveal_strlit("bias");
    fields_are_found_by_name(r.fields, "bias"@);
    reveal_strlit("pool_before");
    fields_are_found_by_name(r.fields, "pool_before"@);
    reveal_strlit("window");
    fields_are_found_by_name(r.fields, "window"@);
    reveal_strlit("C");
    fields_are_found_by_name(r.fields, "C"@);
    reveal_strlit("OC");
    fields_are_found_by_name(r.fields, "OC"@);
    reveal_strlit("m_chunk");
    fields_are_found_by_name(r.fields, "m_chunk"@);
    reveal_strlit("P");
    fields_are_found_by_name(r.fields, "P"@);
    reveal_strlit("D");
    fields_are_found_by_name(r.fields, "D"@);
}

/// A dense layer of a GAIC bundle has the sizes and tensors that its record
/// writes, whichever size is read first.
pub proof fn a_dense_layer_is_its_record(r: RecordView, outputs_first: bool, g: gaic_bundle::DenseView)
    requires
        gaic_bundle::dense_of(r, outputs_first) == Ok::<gaic_bundle::DenseView, Seq<char>>(g),
    ensures
        last_written(r.fields, "w"@, g.w),
        last_written(r.fields, "b"@, g.b),
        written_as::<usize>(r.fields, "in"@, g.inputs),
        written_as::<usize>(r.fields, "out"@, g.outputs),
{
    reveal_strlit("w");
    fields_are_found_by_name(r.fields, "w"@);
    reveal_strlit("b");
    fields_are_found_by_name(r.fields, "b"@);
    reveal_strlit("in");
    fields_are_found_by_name(r.fields, "in"@);
    reveal_strlit("out");
    fields_are_found_by_name(r.fields, "out"@);
}

/// The last layer has one output.
pub proof fn the_last_layer_is_its_record(r: RecordView, g: gaic_bundle::DenseView)
    requires
        gaic_bundle::fc3_of(r) == Ok::<gaic_bundle::DenseView, Seq<char>>(g),
    ensures
        last_written(r.fields, "w"@, g.w),
        last_written(r.fields, "b"@, g.b),
        g.outputs == 1,
        written_as::<usize>(r.fields, "in"@, g.inputs),
{
    reveal_strlit("w");
    fields_are_found_by_name(r.fields, "w"@);
    reveal_strlit("b");
    fields_are_found_by_name(r.fields, "b"@);
    reveal_strlit("in");
    fields_are_found_by_name(r.fields, "in"@);
}

/// The first dense layer has the sizes, the kernel and the tensors that its
/// record writes.
pub proof fn the_first_dense_layer_is_its_record(r: RecordView, g: gaic_bundle::Fc1View)
    requires
        gaic_bundle::fc1_of(r) == Ok::<gaic_bundle::Fc1View, Seq<char>>(g),
    ensures
        last_written(r.fields, "kernel"@, g.kernel),
        last_written(r.fields, "b"@, g.b),
        last_written(r.fields, "bias"@, g.bias),
        written_as::<usize>(r.fields, "k"@, g.k),
        written_as::<usize>(r.fields, "k_pad"@, g.k_pad),
        written_as::<usize>(r.fields, "n"@, g.n),
        written_as::<usize>(r.fields, "m"@, g.m),
{
    reveal_strlit("kernel");
    fields_are_found_by_name(r.fields, "kernel"@);
    reveal_strlit("b");
    fields_are_found_by_name(r.fields, "b"@);
    reveal_strlit("bias");
    fields_are_found_by_name(r.fields, "bias"@);
    reveal_strlit("k");
    fields_are_found_by_name(r.fields, "k"@);
    reveal_strlit("k_pad");
    fields_are_found_by_name(r.fields, "k_pad"@);
    reveal_strlit("n");
    fields_are_found_by_name(r.fields, "n"@);
    reveal_strlit("m");
    fields_are_found_by_name(r.fields, "m"@);
}

/// The reference image has the sizes that its record writes.
pub proof fn a_reference_is_its_record(r: RecordView, g: gaic_bundle::RefView)
    requires
        gaic_bundle::ref_of(r) == Ok::<gaic_bundle::RefView, Seq<char>>(g),
    ensures
        last_written(r.fields, "image"@, g.image),
        written_as::<usize>(r.fields, "w"@, g.w),
        written_as::<usize>(r.fields, "h"@, g.h),
        written_as::<usize>(r.fields, "anchors"@, g.n_anchors),
        written_as::<usize>(r.fields, "src_w"@, g.src_w),
        written_as::<usize>(r.fields, "src_h"@, g.src_h),
{
    reveal_strlit("image");
    fields_are_found_by_name(r.fields, "image"@);
    reveal_strlit("w");
    fields_are_found_by_name(r.fields, "w"@);
    reveal_strlit("h");
    fields_are_found_by_name(r.fields, "h"@);
    reveal_strlit("anchors");
    fields_are_found_by_name(r.fields, "anchors"@);
    reveal_strlit("src_w");
    fields_are_found_by_name(r.fields, "src_w"@);
    reveal_strlit("src_h");
    fields_are_found_by_name(r.fields, "src_h"@);
}

/// A `gemm` line's GEMM has the sizes, the context and the file that the line
/// writes.
pub proof fn a_gemm_line_is_its_gemm(dir: Seq<char>, r: RecordView, g: sam3_bundle::GemmView)
    requires
        sam3_manifest::gemm_of(dir, r) == Ok::<sam3_bundle::GemmView, Seq<char>>(g),
    ensures
        g.key == r.fields[0],
        last_written(r.fields.skip(1), "ctx"@, g.ctx),
        exists|v: Seq<char>| #[trigger] last_written(r.fields.skip(1), "insts"@, v) && g.insts == joined(dir, v),
        exists|v: Seq<char>| #[trigger] last_written(r.fields.skip(1), "bias"@, v) && (u8::from_text(v) matches Some(b) && g.bias == (b != 0)),
        written_as::<usize>(r.fields.skip(1), "M"@, g.m),
        written_as::<usize>(r.fields.skip(1), "K"@, g.k),
        written_as::<usize>(r.fields.skip(1), "N"@, g.n),
        written_as::<usize>(r.fields.skip(1), "lda"@, g.lda),
        written_as::<usize>(r.fields.skip(1), "tile_k"@, g.tile_k),
        written_as::<usize>(r.fields.skip(1), "tile_n"@, g.tile_n),
        written_as::<usize>(r.fields.skip(1), "ct_k"@, g.ct_k),
        written_as::<usize>(r.fields.skip(1), "b_bytes"@, g.b_bytes),
{
    reveal_strlit("ctx");
    fields_are_found_by_name(r.fields.skip(1), "ctx"@);
    reveal_strlit("insts");
    fields_are_found_by_name(r.fields.skip(1), "insts"@);
    reveal_strlit("bias");
    fields_are_found_by_name(r.fields.skip(1), "bias"@);
    reveal_strlit("M");
    fields_are_found_by_name(r.fields.skip(1), "M"@);
    reveal_strlit("K");
    fields_are_found_by_name(r.fields.skip(1), "K"@);
    reveal_strlit("N");
    fields_are_found_by_name(r.fields.skip(1), "N"@);
    reveal_strlit("lda");
    fields_are_found_by_name(r.fields.skip(1), "lda"@);
    reveal_strlit("tile_k");
    fields_are_found_by_name(r.fields.skip(1), "tile_k"@);
    reveal_strlit("tile_n");
    fields_are_found_by_name(r.fields.skip(1), "tile_n"@);
    reveal_strlit("ct_k");
    fields_are_found_by_name(r.fields.skip(1), "ct_k"@);
    reveal_strlit("b_bytes");
    fields_are_found_by_name(r.fields.skip(1), "b_bytes"@);
}

/// An `mha` line's attention likewise.
pub proof fn an_attention_line_is_its_attention(dir: Seq<char>, r: RecordView, g: sam3_bundle::MhaView)
    requires
        sam3_manifest::mha_of(dir, r) == Ok::<sam3_bundle::MhaView, Seq<char>>(g),
    ensures
        g.key == r.fields[0],
        exists|v: Seq<char>| #[trigger] last_written(r.fields.skip(1), "xclbin"@, v) && g.xclbin == joined(dir, v),
        exists|v: Seq<char>| #[trigger] last_written(r.fields.skip(1), "insts"@, v) && g.insts == joined(dir, v),
        written_as::<usize>(r.fields.skip(1), "heads"@, g.heads),
        written_as::<usize>(r.fields.skip(1), "seq"@, g.seq),
        written_as::<usize>(r.fields.skip(1), "d"@, g.d),
        written_as::<usize>(r.fields.skip(1), "elems"@, g.elems),
{
    reveal_strlit("xclbin");
    fields_are_found_by_name(r.fields.skip(1), "xclbin"@);
    reveal_strlit("insts");
    fields_are_found_by_name(r.fields.skip(1), "insts"@);
    reveal_strlit("heads");
    fields_are_found_by_name(r.fields.skip(1), "heads"@);
    reveal_strlit("seq");
    fields_are_found_by_name(r.fields.skip(1), "seq"@);
    reveal_strlit("d");
    fields_are_found_by_name(r.fields.skip(1), "d"@);
    reveal_strlit("elems");
    fields_are_found_by_name(r.fields.skip(1), "elems"@);
}

/// An `op` line's kernel likewise.
pub proof fn a_kernel_line_is_its_kernel(dir: Seq<char>, r: RecordView, g: sam3_bundle::OpView)
    requires
        sam3_manifest::op_of(dir, r) == Ok::<sam3_bundle::OpView, Seq<char>>(g),
    ensures
        g.key == r.fields[0],
        exists|v: Seq<char>| #[trigger] last_written(r.fields.skip(1), "xclbin"@, v) && g.xclbin == joined(dir, v),
        exists|v: Seq<char>| #[trigger] last_written(r.fields.skip(1), "insts"@, v) && g.insts == joined(dir, v),
{
    reveal_strlit("xclbin");
    fields_are_found_by_name(r.fields.skip(1), "xclbin"@);
    reveal_strlit("insts");
    fields_are_found_by_name(r.fields.skip(1), "insts"@);
}

/// The words of a `kernel` line, in order: its key, files and name, and its
/// sizes.
pub proof fn a_kernel_s_words_are_in_order(dir: Seq<char>, line: nat, t: Seq<Seq<char>>, g: gaic_bundle::KernelView)
    requires
        gaic_manifest::kernel_line(dir, line, t) == Ok::<gaic_bundle::KernelView, Seq<char>>(g),
    ensures
        g.key == t[1],
        g.xclbin == joined(dir, t[2]),
        g.insts == joined(dir, t[3]),
        g.name == t[4],
        usize::from_text(t[5]) == Some(g.m),
        usize::from_text(t[6]) == Some(g.k),
        usize::from_text(t[7]) == Some(g.n),
        usize::from_text(t[8]) == Some(g.a_elems),
        usize::from_text(t[9]) == Some(g.b_bytes),
        usize::from_text(t[10]) == Some(g.c_elems),
{
}

/// The words of a `conv` line.
pub proof fn a_layer_s_words_are_in_order(dir: Seq<char>, line: nat, t: Seq<Seq<char>>, g: gaic_bundle::ConvView)
    requires
        gaic_manifest::conv_line(dir, line, t) == Ok::<gaic_bundle::ConvView, Seq<char>>(g),
    ensures
        g.name == t[1],
        g.kernel == t[2],
        usize::from_text(t[3]) == Some(g.c),
        usize::from_text(t[4]) == Some(g.oc),
        u8::from_text(t[5]) matches Some(v) && g.pool_before == (v != 0),
        usize::from_text(t[6]) == Some(g.m_chunk),
        usize::from_text(t[7]) == Some(g.p),
        u8::from_text(t[8]) matches Some(v) && g.window == (v != 0),
        usize::from_text(t[9]) == Some(g.d),
        g.b == joined(dir, t[10]),
        g.bias == joined(dir, t[11]),
{
}

/// The words of a `dimred` line: outputs before inputs.
pub proof fn a_reduction_s_words_are_in_order(dir: Seq<char>, line: nat, t: Seq<Seq<char>>, g: gaic_bundle::DenseView)
    requires
        gaic_manifest::dimred_line(dir, line, t) == Ok::<gaic_bundle::DenseView, Seq<char>>(g),
    ensures
        g.w == joined(dir, t[1]),
        g.b == joined(dir, t[2]),
        usize::from_text(t[3]) == Some(g.outputs),
        usize::from_text(t[4]) == Some(g.inputs),
{
}

/// The words of an `fc2` line: inputs before outputs.
pub proof fn a_second_layer_s_words_are_in_order(dir: Seq<char>, line: nat, t: Seq<Seq<char>>, g: gaic_bundle::DenseView)
    requires
        gaic_manifest::fc2_line(dir, line, t) == Ok::<gaic_bundle::DenseView, Seq<char>>(g),
    ensures
        g.w == joined(dir, t[1]),
        g.b == joined(dir, t[2]),
        usize::from_text(t[3]) == Some(g.inputs),
        usize::from_text(t[4]) == Some(g.outputs),
{
}

/// The words of an `fc1` line.
pub proof fn a_first_layer_s_words_are_in_order(dir: Seq<char>, line: nat, t: Seq<Seq<char>>, g: gaic_bundle::Fc1View)
    requires
        gaic_manifest::fc1_line(dir, line, t) == Ok::<gaic_bundle::Fc1View, Seq<char>>(g),
    ensures
        g.kernel == t[1],
        g.b == joined(dir, t[2]),
        g.bias == joined(dir, t[3]),
        usize::from_text(t[4]) == Some(g.k),
        usize::from_text(t[5]) == Some(g.k_pad),
        usize::from_text(t[6]) == Some(g.n),
        usize::from_text(t[7]) == Some(g.m),
{
}

/// The words of a `ref` line.
pub proof fn a_reference_s_words_are_in_order(dir: Seq<char>, line: nat, t: Seq<Seq<char>>, g: gaic_bundle::RefView)
    requires
        gaic_manifest::ref_line(dir, line, t) == Ok::<gaic_bundle::RefView, Seq<char>>(g),
    ensures
        g.image == t[1],
        usize::from_text(t[2]) == Some(g.w),
        usize::from_text(t[3]) == Some(g.h),
        usize::from_text(t[4]) == Some(g.n_anchors),
        usize::from_text(t[5]) == Some(g.src_w),
        usize::from_text(t[6]) == Some(g.src_h),
{
}

/// A CLIP model has the sizes its params give.
pub proof fn a_clip_model_s_sizes_are_its_params(m: manifest::ManifestView, g: clip_config::ConfigView)
    requires
        clip_config::config_of(m) is Ok,
        g == clip_config::config_of(m)->Ok_0,
    ensures
        m.params.contains_key("v_layers"@) && usize::from_text(m.params["v_layers"@]) == Some(g.v_layers),
        m.params.contains_key("v_dim"@) && usize::from_text(m.params["v_dim"@]) == Some(g.v_dim),
        m.params.contains_key("v_tokens"@) && usize::from_text(m.params["v_tokens"@]) == Some(g.v_tokens),
        m.params.contains_key("v_stride"@) && usize::from_text(m.params["v_stride"@]) == Some(g.v_stride),
        m.params.contains_key("v_batch"@) && usize::from_text(m.params["v_batch"@]) == Some(g.v_batch),
        m.params.contains_key("v_rows"@) && usize::from_text(m.params["v_rows"@]) == Some(g.v_rows),
        m.params.contains_key("v_mha_rows"@) && usize::from_text(m.params["v_mha_rows"@]) == Some(g.v_mha_rows),
        m.params.contains_key("patch"@) && usize::from_text(m.params["patch"@]) == Some(g.patch),
        m.params.contains_key("image_size"@) && usize::from_text(m.params["image_size"@]) == Some(g.image_size),
        m.params.contains_key("t_layers"@) && usize::from_text(m.params["t_layers"@]) == Some(g.t_layers),
        m.params.contains_key("t_dim"@) && usize::from_text(m.params["t_dim"@]) == Some(g.t_dim),
        m.params.contains_key("t_batch"@) && usize::from_text(m.params["t_batch"@]) == Some(g.t_batch),
        m.params.contains_key("t_seq_pad"@) && usize::from_text(m.params["t_seq_pad"@]) == Some(g.t_seq_pad),
        m.params.contains_key("t_rows"@) && usize::from_text(m.params["t_rows"@]) == Some(g.t_rows),
        m.params.contains_key("context"@) && usize::from_text(m.params["context"@]) == Some(g.context),
        m.params.contains_key("embed_dim"@) && usize::from_text(m.params["embed_dim"@]) == Some(g.embed_dim),
        m.params.contains_key("v_eps"@) && g.v_eps == m.params["v_eps"@],
        m.params.contains_key("t_eps"@) && g.t_eps == m.params["t_eps"@],
        m.params.contains_key("logit_scale"@) && g.logit_scale == m.params["logit_scale"@],
        m.params.contains_key("prompt_template"@) && g.prompt_template == m.params["prompt_template"@],
        usize::from_text(m.params["eos_argmax"@]) matches Some(v) && g.eos_argmax == (v != 0),
{
}

/// A CLIP model has the settings its params give.
pub proof fn a_clip_model_s_settings_are_its_params(m: manifest::ManifestView, image_size: usize, g: clip_config::SettingsView)
    requires
        clip_config::settings_of(m, image_size) is Ok,
        g == clip_config::settings_of(m, image_size)->Ok_0,
    ensures
        m.params.contains_key("bos"@) && u32::from_text(m.params["bos"@]) == Some(g.bos),
        m.params.contains_key("eos"@) && u32::from_text(m.params["eos"@]) == Some(g.eos),
        m.params.contains_key("pad"@) && u32::from_text(m.params["pad"@]) == Some(g.pad),
        m.params.contains_key("resize_shortest"@) && usize::from_text(m.params["resize_shortest"@]) == Some(g.shortest),
        m.params.contains_key("crop"@) && usize::from_text(m.params["crop"@]) == Some(g.crop),
{
}

/// A SAM 3 model has the sizes its params give; a switch is on where its param
/// is `1`.
pub proof fn a_sam_model_s_sizes_are_its_params(m: manifest::ManifestView, g: sam3_config::ConfigView)
    requires
        sam3_config::config_of(m) is Ok,
        g == sam3_config::config_of(m)->Ok_0,
    ensures
        m.params.contains_key("grid"@) && usize::from_text(m.params["grid"@]) == Some(g.grid),
        m.params.contains_key("window"@) && usize::from_text(m.params["window"@]) == Some(g.window),
        m.params.contains_key("vit_dim"@) && usize::from_text(m.params["vit_dim"@]) == Some(g.vit_dim),
        m.params.contains_key("vit_heads"@) && usize::from_text(m.params["vit_heads"@]) == Some(g.vit_heads),
        m.params.contains_key("vit_layers"@) && usize::from_text(m.params["vit_layers"@]) == Some(g.vit_layers),
        m.params.contains_key("vit_ffn_pad"@) && usize::from_text(m.params["vit_ffn_pad"@]) == Some(g.vit_ffn_pad),
        m.params.contains_key("patch"@) && usize::from_text(m.params["patch"@]) == Some(g.patch),
        m.params.contains_key("image_size"@) && usize::from_text(m.params["image_size"@]) == Some(g.image_size),
        m.params.contains_key("d_model"@) && usize::from_text(m.params["d_model"@]) == Some(g.d_model),
        m.params.contains_key("d_heads"@) && usize::from_text(m.params["d_heads"@]) == Some(g.d_heads),
        m.params.contains_key("d_layers"@) && usize::from_text(m.params["d_layers"@]) == Some(g.d_layers),
        m.params.contains_key("d_ffn"@) && usize::from_text(m.params["d_ffn"@]) == Some(g.d_ffn),
        m.params.contains_key("text_len"@) && usize::from_text(m.params["text_len"@]) == Some(g.text_len),
        m.params.contains_key("text_dim"@) && usize::from_text(m.params["text_dim"@]) == Some(g.text_dim),
        m.params.contains_key("text_heads"@) && usize::from_text(m.params["text_heads"@]) == Some(g.text_heads),
        m.params.contains_key("text_layers"@) && usize::from_text(m.params["text_layers"@]) == Some(g.text_layers),
        m.params.contains_key("text_ffn"@) && usize::from_text(m.params["text_ffn"@]) == Some(g.text_ffn),
        m.params.contains_key("queries"@) && usize::from_text(m.params["queries"@]) == Some(g.queries),
        m.params.contains_key("dec_layers"@) && usize::from_text(m.params["dec_layers"@]) == Some(g.dec_layers),
        m.params.contains_key("mask_size"@) && usize::from_text(m.params["mask_size"@]) == Some(g.mask_size),
        m.params.contains_key("text_eps"@) && g.text_eps == m.params["text_eps"@],
        m.params.contains_key("vit_eps"@) && g.vit_eps == m.params["vit_eps"@],
        g.vit_device == (m.params.contains_key("vit_device"@) && m.params["vit_device"@] == "1"@),
        g.vit_res_f32 == (m.params.contains_key("vit_res_f32"@) && m.params["vit_res_f32"@] == "1"@),
{
}

/// A line of an index says of a tensor, in this order, its name, type, sizes,
/// first byte and bytes.
pub proof fn an_index_line_says_its_tensor(i: nat, line: Seq<char>, name: Seq<char>, e: EntryView)
    requires
        entry_of(i, line) == Ok::<(Seq<char>, EntryView), Seq<char>>((name, e)),
    ensures
        words(line).len() == 5,
        name == words(line)[0],
        dtype_named(words(line)[1]) == Some(e.dtype),
        dims_of(pieces(words(line)[2], ',')) == Some(e.shape),
        usize::from_text(words(line)[3]) == Some(e.off as usize),
        usize::from_text(words(line)[4]) == Some(e.len as usize),
{
}

/// A relative path is put below its directory, with one slash between; an
/// absolute one stays.
pub proof fn relative_paths_go_below(dir: Seq<char>, rel: Seq<char>)
    ensures
        rel.len() > 0 && rel[0] == '/' ==> joined(dir, rel) == rel,
        dir.len() == 0 ==> joined(dir, rel) == rel,
        dir.len() > 0 && (rel.len() == 0 || rel[0] != '/') ==> {
            let j = joined(dir, rel);
            &&& starts_with(j, dir)
            &&& j.skip(j.len() - rel.len()) == rel
            &&& dir.last() == '/' ==> j.len() == dir.len() + rel.len()
            &&& dir.last() != '/' ==> j.len() == dir.len() + 1 + rel.len() && j[dir.len() as int] == '/'
        },
{
    reveal_strlit("/");
    let j = joined(dir, rel);
    if dir.len() > 0 && (rel.len() == 0 || rel[0] != '/') {
        assert(j.take(dir.len() as int) =~= dir);
        assert(j.skip(j.len() - rel.len()) =~= rel);
    }
}

/// A manifest that reads says what each of its lines does: a `param` line
/// gives the param of its first word the text behind it, an `xclbin` line
/// names a context, its file and its kernel, and any other is kept.
pub proof fn every_line_is_read(ls: Seq<Seq<char>>, dir: Seq<char>, i: int, r: RecordView)
    requires
        reading(ls, dir) is Ok,
        0 <= i < ls.len(),
        record_of((i + 1) as nat, ls[i]) == Some(r),
    ensures
        ({
            let m = reading(ls, dir)->Ok_0;
            let f = r.fields;
            &&& r.tag == "param"@ ==> f.len() > 1 && m.params.contains_key(f[0]) && m.params[f[0]] == r.rest(1)
            &&& r.tag == "xclbin"@ ==> f.len() > 2 && m.xclbins.contains_key(f[0]) && m.xclbins[f[0]].path == joined(dir, f[1])
                && m.xclbins[f[0]].kernel == f[2]
            &&& r.tag == "version"@ ==> f.len() > 0 && (m.version matches Some(v) && u32::from_text(f[0]) == Some(v))
            &&& r.tag != "param"@ && r.tag != "xclbin"@ && r.tag != "version"@ ==> m.records.contains(r)
        }),
    decreases ls.len(),
{
    reveal_strlit("param");
    reveal_strlit("xclbin");
    reveal_strlit("version");
    assert("param"@[0] == 'p' && "xclbin"@[0] == 'x' && "version"@[0] == 'v');
    let m = reading(ls, dir)->Ok_0;
    let t = ls.drop_last();
    let before = reading(t, dir)->Ok_0;
    assert(reading(t, dir) is Ok);
    if i < t.len() {
        assert(t[i] == ls[i]);
        every_line_is_read(t, dir, i, r);
        if before.records.contains(r) {
            let j = before.records.index_of(r);
            assert(m.records[j] == r);
        }
    } else {
        assert(before.with(r, dir) == Ok::<manifest::Reading, Seq<char>>(m));
        if r.tag != "param"@ && r.tag != "xclbin"@ && r.tag != "version"@ {
            assert(m.records[before.records.len() as int] == r);
        }
    }
}

} // verus!
