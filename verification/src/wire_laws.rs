//! Where the fields of the driver's records stand in their bytes.

use crate::bytes::{le16, le32, le64};
use crate::sys::{
    GetInfo, QosInfo, CreateHwctx, HandlePad, ConfigHwctx, ConfigCu, CreateBo, GetBoInfo, ExecCmd, SyncobjTimelineWait, TileMetadata, AieMetadata, GetArray, HwctxEntry,
};
use crate::wire::{bits64, bytes_of, le_bytes, packed, room, total, widths_of, Field, Plain};
use vstd::prelude::*;

verus! {

proof fn bytes_add_up(v: int)
    ensures
        0 <= v < 0x1_0000 ==> v % 0x100 + 0x100 * (v / 0x100 % 0x100) == v,
        v % 0x100 + 0x100 * (v / 0x100 % 0x100) == v % 0x1_0000,
        v / 0x100 / 0x100 == v / 0x1_0000,
{
}

proof fn two_bytes(v: int)
    ensures
        le_bytes(2, v).len() == 2,
        le16(le_bytes(2, v), 0) == v % 0x1_0000,
{
    reveal_with_fuel(le_bytes, 3);
    bytes_add_up(v);
}

proof fn four_bytes(v: int)
    ensures
        le_bytes(4, v).len() == 4,
        le32(le_bytes(4, v), 0) == v % 0x1_0000_0000,
{
    reveal_with_fuel(le_bytes, 5);
    bytes_add_up(v);
    bytes_add_up(v / 0x1_0000);
    let b = le_bytes(4, v);
    assert(b[0] == v % 0x100 && b[1] == v / 0x100 % 0x100);
    assert(b[2] == v / 0x100 / 0x100 % 0x100 && b[3] == v / 0x100 / 0x100 / 0x100 % 0x100);
    assert(le16(b, 2) == v / 0x1_0000 % 0x1_0000);
}

proof fn eight_bytes(v: int)
    ensures
        le_bytes(8, v).len() == 8,
        le64(le_bytes(8, v), 0) == v % 0x1_0000_0000_0000_0000,
{
    let b = le_bytes(8, v);
    let (lo, hi) = (le_bytes(4, v), le_bytes(4, v / 0x1_0000_0000));
    four_bytes(v);
    four_bytes(v / 0x1_0000_0000);
    assert(b =~= lo + hi) by {
        reveal_with_fuel(le_bytes, 9);
        assert(v / 0x100 / 0x100 / 0x100 / 0x100 == v / 0x1_0000_0000);
    }
    assert(le32(b, 0) == le32(lo, 0));
    assert(le32(b, 4) == le32(hi, 0));
    assert(v % 0x1_0000_0000 + 0x1_0000_0000 * (v / 0x1_0000_0000 % 0x1_0000_0000) == v % 0x1_0000_0000_0000_0000);
}

proof fn bytes_len(w: nat, v: int)
    ensures
        le_bytes(w, v).len() == w,
    decreases w,
{
    if w > 0 {
        bytes_len((w - 1) as nat, v / 0x100);
    }
}

proof fn packed_field(f: Seq<Field>, i: int, k: int)
    requires
        0 <= i < f.len(),
        0 <= k < f[i].width,
    ensures
        packed(f).len() == total(widths_of(f)),
        total(widths_of(f).take(i)) + f[i].width <= packed(f).len(),
        packed(f)[total(widths_of(f).take(i)) + k] == le_bytes(f[i].width, f[i].value)[k],
    decreases f.len(),
{
    let g = f.drop_last();
    bytes_len(f.last().width, f.last().value);
    bytes_len(f[i].width, f[i].value);
    assert(widths_of(g) =~= widths_of(f).drop_last());
    packed_len(g);
    packed_len(f);
    if i < f.len() - 1 {
        packed_field(g, i, k);
        assert(widths_of(g).take(i) =~= widths_of(f).take(i));
    } else {
        assert(widths_of(f).take(i) =~= widths_of(g));
    }
}

proof fn packed_len(f: Seq<Field>)
    ensures
        packed(f).len() == total(widths_of(f)),
    decreases f.len(),
{
    if f.len() > 0 {
        packed_len(f.drop_last());
        bytes_len(f.last().width, f.last().value);
        assert(widths_of(f).drop_last() =~= widths_of(f.drop_last()));
    }
}

/// A field is read where it stands: behind the bytes of the fields before it.
proof fn field_at(f: Seq<Field>, i: int, off: int)
    requires
        0 <= i < f.len(),
        off == total(widths_of(f).take(i)),
        0 <= f[i].value < room(f[i].width),
    ensures
        f[i].width == 1 ==> packed(f)[off] == f[i].value,
        f[i].width == 2 ==> le16(packed(f), off) == f[i].value,
        f[i].width == 4 ==> le32(packed(f), off) == f[i].value,
        f[i].width == 8 ==> le64(packed(f), off) == f[i].value,
        total(widths_of(f).take(i + 1)) == off + f[i].width,
{
    let (w, v) = (f[i].width, f[i].value);
    let b = le_bytes(w, v);
    let p = packed(f);
    assert forall|k: int| 0 <= k < w implies p[off + k] == #[trigger] b[k] by {
        packed_field(f, i, k);
    }
    reveal_with_fuel(room, 9);
    reveal_with_fuel(le_bytes, 2);
    assert(widths_of(f).take(i + 1).drop_last() =~= widths_of(f).take(i));
    if w == 1 {
        assert(p[off + 0] == b[0]);
    } else if w == 2 {
        two_bytes(v);
        assert(p[off + 0] == b[0] && p[off + 1] == b[1]);
    } else if w == 4 {
        four_bytes(v);
        assert(p[off + 0] == b[0] && p[off + 1] == b[1] && p[off + 2] == b[2] && p[off + 3] == b[3]);
    } else if w == 8 {
        eight_bytes(v);
        assert(p[off + 0] == b[0] && p[off + 1] == b[1] && p[off + 2] == b[2] && p[off + 3] == b[3]);
        assert(p[off + 4] == b[4] && p[off + 5] == b[5] && p[off + 6] == b[6] && p[off + 7] == b[7]);
    }
}

/// A query, 16 bytes: every field stands at its place.
pub proof fn get_info_is_laid_out(x: GetInfo)
    ensures
        bytes_of(x).len() == 16,
        le32(bytes_of(x), 0) == x.param,
        le32(bytes_of(x), 4) == x.buffer_size,
        le64(bytes_of(x), 8) == x.buffer,
{
    let f = x.fields();
    x.laid_out();
    packed_len(f);
    assert(widths_of(f).take(0) =~= seq![]);
    field_at(f, 0, 0);
    field_at(f, 1, 4);
    field_at(f, 2, 8);
    assert(widths_of(f).take(3) =~= widths_of(f));
}

/// A context's wishes, 24 bytes: every field stands at its place.
pub proof fn qos_info_is_laid_out(x: QosInfo)
    ensures
        bytes_of(x).len() == 24,
        le32(bytes_of(x), 0) == x.gops,
        le32(bytes_of(x), 4) == x.fps,
        le32(bytes_of(x), 8) == x.dma_bandwidth,
        le32(bytes_of(x), 12) == x.latency,
        le32(bytes_of(x), 16) == x.frame_exec_time,
        le32(bytes_of(x), 20) == x.priority,
{
    let f = x.fields();
    x.laid_out();
    packed_len(f);
    assert(widths_of(f).take(0) =~= seq![]);
    field_at(f, 0, 0);
    field_at(f, 1, 4);
    field_at(f, 2, 8);
    field_at(f, 3, 12);
    field_at(f, 4, 16);
    field_at(f, 5, 20);
    assert(widths_of(f).take(6) =~= widths_of(f));
}

/// Making a context, 56 bytes: every field stands at its place.
pub proof fn create_hwctx_is_laid_out(x: CreateHwctx)
    ensures
        bytes_of(x).len() == 56,
        le64(bytes_of(x), 0) == x.ext,
        le64(bytes_of(x), 8) == x.ext_flags,
        le64(bytes_of(x), 16) == x.qos_p,
        le32(bytes_of(x), 24) == x.umq_bo,
        le32(bytes_of(x), 28) == x.log_buf_bo,
        le32(bytes_of(x), 32) == x.max_opc,
        le32(bytes_of(x), 36) == x.num_tiles,
        le32(bytes_of(x), 40) == x.mem_size,
        le32(bytes_of(x), 44) == x.umq_doorbell,
        le32(bytes_of(x), 48) == x.handle,
        le32(bytes_of(x), 52) == x.syncobj_handle,
{
    let f = x.fields();
    x.laid_out();
    packed_len(f);
    assert(widths_of(f).take(0) =~= seq![]);
    field_at(f, 0, 0);
    field_at(f, 1, 8);
    field_at(f, 2, 16);
    field_at(f, 3, 24);
    field_at(f, 4, 28);
    field_at(f, 5, 32);
    field_at(f, 6, 36);
    field_at(f, 7, 40);
    field_at(f, 8, 44);
    field_at(f, 9, 48);
    field_at(f, 10, 52);
    assert(widths_of(f).take(11) =~= widths_of(f));
}

/// A handle, 8 bytes: every field stands at its place.
pub proof fn handle_pad_is_laid_out(x: HandlePad)
    ensures
        bytes_of(x).len() == 8,
        le32(bytes_of(x), 0) == x.handle,
        le32(bytes_of(x), 4) == x.pad,
{
    let f = x.fields();
    x.laid_out();
    packed_len(f);
    assert(widths_of(f).take(0) =~= seq![]);
    field_at(f, 0, 0);
    field_at(f, 1, 4);
    assert(widths_of(f).take(2) =~= widths_of(f));
}

/// Configuring a context, 24 bytes: every field stands at its place.
pub proof fn config_hwctx_is_laid_out(x: ConfigHwctx)
    ensures
        bytes_of(x).len() == 24,
        le32(bytes_of(x), 0) == x.handle,
        le32(bytes_of(x), 4) == x.param_type,
        le64(bytes_of(x), 8) == x.param_val,
        le32(bytes_of(x), 16) == x.param_val_size,
        le32(bytes_of(x), 20) == x.pad,
{
    let f = x.fields();
    x.laid_out();
    packed_len(f);
    assert(widths_of(f).take(0) =~= seq![]);
    field_at(f, 0, 0);
    field_at(f, 1, 4);
    field_at(f, 2, 8);
    field_at(f, 3, 16);
    field_at(f, 4, 20);
    assert(widths_of(f).take(5) =~= widths_of(f));
}

/// A compute unit, 16 bytes: every field stands at its place.
pub proof fn config_cu_is_laid_out(x: ConfigCu)
    ensures
        bytes_of(x).len() == 16,
        le16(bytes_of(x), 0) == x.num_cus,
        le16(bytes_of(x), 2) == x.pad.0,
        le16(bytes_of(x), 4) == x.pad.1,
        le16(bytes_of(x), 6) == x.pad.2,
        le32(bytes_of(x), 8) == x.cu_bo,
        bytes_of(x)[12] == x.cu_func,
        bytes_of(x)[13] == x.cu_pad.0,
        bytes_of(x)[14] == x.cu_pad.1,
        bytes_of(x)[15] == x.cu_pad.2,
{
    let f = x.fields();
    x.laid_out();
    packed_len(f);
    assert(widths_of(f).take(0) =~= seq![]);
    field_at(f, 0, 0);
    field_at(f, 1, 2);
    field_at(f, 2, 4);
    field_at(f, 3, 6);
    field_at(f, 4, 8);
    field_at(f, 5, 12);
    field_at(f, 6, 13);
    field_at(f, 7, 14);
    field_at(f, 8, 15);
    assert(widths_of(f).take(9) =~= widths_of(f));
}

/// Making a buffer, 32 bytes: every field stands at its place.
pub proof fn create_bo_is_laid_out(x: CreateBo)
    ensures
        bytes_of(x).len() == 32,
        le64(bytes_of(x), 0) == x.flags,
        le64(bytes_of(x), 8) == x.vaddr,
        le64(bytes_of(x), 16) == x.size,
        le32(bytes_of(x), 24) == x.ty,
        le32(bytes_of(x), 28) == x.handle,
{
    let f = x.fields();
    x.laid_out();
    packed_len(f);
    assert(widths_of(f).take(0) =~= seq![]);
    field_at(f, 0, 0);
    field_at(f, 1, 8);
    field_at(f, 2, 16);
    field_at(f, 3, 24);
    field_at(f, 4, 28);
    assert(widths_of(f).take(5) =~= widths_of(f));
}

/// Asking about a buffer, 48 bytes: every field stands at its place.
pub proof fn get_bo_info_is_laid_out(x: GetBoInfo)
    ensures
        bytes_of(x).len() == 48,
        le64(bytes_of(x), 0) == x.ext,
        le64(bytes_of(x), 8) == x.ext_flags,
        le32(bytes_of(x), 16) == x.handle,
        le32(bytes_of(x), 20) == x.pad,
        le64(bytes_of(x), 24) == x.map_offset,
        le64(bytes_of(x), 32) == x.vaddr,
        le64(bytes_of(x), 40) == x.xdna_addr,
{
    let f = x.fields();
    x.laid_out();
    packed_len(f);
    assert(widths_of(f).take(0) =~= seq![]);
    field_at(f, 0, 0);
    field_at(f, 1, 8);
    field_at(f, 2, 16);
    field_at(f, 3, 20);
    field_at(f, 4, 24);
    field_at(f, 5, 32);
    field_at(f, 6, 40);
    assert(widths_of(f).take(7) =~= widths_of(f));
}

/// A command, 56 bytes: every field stands at its place.
pub proof fn exec_cmd_is_laid_out(x: ExecCmd)
    ensures
        bytes_of(x).len() == 56,
        le64(bytes_of(x), 0) == x.ext,
        le64(bytes_of(x), 8) == x.ext_flags,
        le32(bytes_of(x), 16) == x.hwctx,
        le32(bytes_of(x), 20) == x.ty,
        le64(bytes_of(x), 24) == x.cmd_handles,
        le64(bytes_of(x), 32) == x.args,
        le32(bytes_of(x), 40) == x.cmd_count,
        le32(bytes_of(x), 44) == x.arg_count,
        le64(bytes_of(x), 48) == x.seq,
{
    let f = x.fields();
    x.laid_out();
    packed_len(f);
    assert(widths_of(f).take(0) =~= seq![]);
    field_at(f, 0, 0);
    field_at(f, 1, 8);
    field_at(f, 2, 16);
    field_at(f, 3, 20);
    field_at(f, 4, 24);
    field_at(f, 5, 32);
    field_at(f, 6, 40);
    field_at(f, 7, 44);
    field_at(f, 8, 48);
    assert(widths_of(f).take(9) =~= widths_of(f));
}

/// A wait, 48 bytes: every field stands at its place.
pub proof fn syncobj_timeline_wait_is_laid_out(x: SyncobjTimelineWait)
    ensures
        bytes_of(x).len() == 48,
        le64(bytes_of(x), 0) == x.handles,
        le64(bytes_of(x), 8) == x.points,
        le64(bytes_of(x), 16) == bits64(x.timeout_nsec),
        le32(bytes_of(x), 24) == x.count_handles,
        le32(bytes_of(x), 28) == x.flags,
        le32(bytes_of(x), 32) == x.first_signaled,
        le32(bytes_of(x), 36) == x.pad,
        le64(bytes_of(x), 40) == x.deadline_nsec,
{
    let f = x.fields();
    x.laid_out();
    packed_len(f);
    assert(widths_of(f).take(0) =~= seq![]);
    field_at(f, 0, 0);
    field_at(f, 1, 8);
    field_at(f, 2, 16);
    field_at(f, 3, 24);
    field_at(f, 4, 28);
    field_at(f, 5, 32);
    field_at(f, 6, 36);
    field_at(f, 7, 40);
    assert(widths_of(f).take(8) =~= widths_of(f));
}

/// A kind of tile, 16 bytes: every field stands at its place.
pub proof fn tile_metadata_is_laid_out(x: TileMetadata)
    ensures
        bytes_of(x).len() == 16,
        le16(bytes_of(x), 0) == x.row_count,
        le16(bytes_of(x), 2) == x.row_start,
        le16(bytes_of(x), 4) == x.dma_channel_count,
        le16(bytes_of(x), 6) == x.lock_count,
        le16(bytes_of(x), 8) == x.event_reg_count,
        le16(bytes_of(x), 10) == x.pad.0,
        le16(bytes_of(x), 12) == x.pad.1,
        le16(bytes_of(x), 14) == x.pad.2,
{
    let f = x.fields();
    x.laid_out();
    packed_len(f);
    assert(widths_of(f).take(0) =~= seq![]);
    field_at(f, 0, 0);
    field_at(f, 1, 2);
    field_at(f, 2, 4);
    field_at(f, 3, 6);
    field_at(f, 4, 8);
    field_at(f, 5, 10);
    field_at(f, 6, 12);
    field_at(f, 7, 14);
    assert(widths_of(f).take(8) =~= widths_of(f));
}

/// The array, 64 bytes: every field stands at its place.
pub proof fn aie_metadata_is_laid_out(x: AieMetadata)
    ensures
        bytes_of(x).len() == 64,
        le32(bytes_of(x), 0) == x.col_size,
        le16(bytes_of(x), 4) == x.cols,
        le16(bytes_of(x), 6) == x.rows,
        le32(bytes_of(x), 8) == x.version.0,
        le32(bytes_of(x), 12) == x.version.1,
        le16(bytes_of(x), 16) == x.core.row_count,
        le16(bytes_of(x), 18) == x.core.row_start,
        le16(bytes_of(x), 20) == x.core.dma_channel_count,
        le16(bytes_of(x), 22) == x.core.lock_count,
        le16(bytes_of(x), 24) == x.core.event_reg_count,
        le16(bytes_of(x), 26) == x.core.pad.0,
        le16(bytes_of(x), 28) == x.core.pad.1,
        le16(bytes_of(x), 30) == x.core.pad.2,
        le16(bytes_of(x), 32) == x.mem.row_count,
        le16(bytes_of(x), 34) == x.mem.row_start,
        le16(bytes_of(x), 36) == x.mem.dma_channel_count,
        le16(bytes_of(x), 38) == x.mem.lock_count,
        le16(bytes_of(x), 40) == x.mem.event_reg_count,
        le16(bytes_of(x), 42) == x.mem.pad.0,
        le16(bytes_of(x), 44) == x.mem.pad.1,
        le16(bytes_of(x), 46) == x.mem.pad.2,
        le16(bytes_of(x), 48) == x.shim.row_count,
        le16(bytes_of(x), 50) == x.shim.row_start,
        le16(bytes_of(x), 52) == x.shim.dma_channel_count,
        le16(bytes_of(x), 54) == x.shim.lock_count,
        le16(bytes_of(x), 56) == x.shim.event_reg_count,
        le16(bytes_of(x), 58) == x.shim.pad.0,
        le16(bytes_of(x), 60) == x.shim.pad.1,
        le16(bytes_of(x), 62) == x.shim.pad.2,
{
    let f = x.fields();
    x.laid_out();
    packed_len(f);
    assert(widths_of(f).take(0) =~= seq![]);
    field_at(f, 0, 0);
    field_at(f, 1, 4);
    field_at(f, 2, 6);
    field_at(f, 3, 8);
    field_at(f, 4, 12);
    field_at(f, 5, 16);
    field_at(f, 6, 18);
    field_at(f, 7, 20);
    field_at(f, 8, 22);
    field_at(f, 9, 24);
    field_at(f, 10, 26);
    field_at(f, 11, 28);
    field_at(f, 12, 30);
    field_at(f, 13, 32);
    field_at(f, 14, 34);
    field_at(f, 15, 36);
    field_at(f, 16, 38);
    field_at(f, 17, 40);
    field_at(f, 18, 42);
    field_at(f, 19, 44);
    field_at(f, 20, 46);
    field_at(f, 21, 48);
    field_at(f, 22, 50);
    field_at(f, 23, 52);
    field_at(f, 24, 54);
    field_at(f, 25, 56);
    field_at(f, 26, 58);
    field_at(f, 27, 60);
    field_at(f, 28, 62);
    assert(widths_of(f).take(29) =~= widths_of(f));
}

/// Asking for an array, 24 bytes: every field stands at its place.
pub proof fn get_array_is_laid_out(x: GetArray)
    ensures
        bytes_of(x).len() == 24,
        le32(bytes_of(x), 0) == x.param,
        le32(bytes_of(x), 4) == x.element_size,
        le32(bytes_of(x), 8) == x.num_element,
        le32(bytes_of(x), 12) == x.pad,
        le64(bytes_of(x), 16) == x.buffer,
{
    let f = x.fields();
    x.laid_out();
    packed_len(f);
    assert(widths_of(f).take(0) =~= seq![]);
    field_at(f, 0, 0);
    field_at(f, 1, 4);
    field_at(f, 2, 8);
    field_at(f, 3, 12);
    field_at(f, 4, 16);
    assert(widths_of(f).take(5) =~= widths_of(f));
}

/// A context's entry, 144 bytes: every field stands at its place.
pub proof fn hwctx_entry_is_laid_out(x: HwctxEntry)
    ensures
        bytes_of(x).len() == 144,
        le32(bytes_of(x), 0) == x.context_id,
        le32(bytes_of(x), 4) == x.start_col,
        le32(bytes_of(x), 8) == x.num_col,
        le32(bytes_of(x), 12) == x.hwctx_id,
        le64(bytes_of(x), 16) == bits64(x.pid),
        le64(bytes_of(x), 24) == x.command_submissions,
        le64(bytes_of(x), 32) == x.command_completions,
        le64(bytes_of(x), 40) == x.migrations,
        le64(bytes_of(x), 48) == x.preemptions,
        le64(bytes_of(x), 56) == x.errors,
        le64(bytes_of(x), 64) == x.priority,
        le64(bytes_of(x), 72) == x.heap_usage,
        le64(bytes_of(x), 80) == x.suspensions,
        le32(bytes_of(x), 88) == x.state,
        le32(bytes_of(x), 92) == x.pasid,
        le32(bytes_of(x), 96) == x.gops,
        le32(bytes_of(x), 100) == x.fps,
        le32(bytes_of(x), 104) == x.dma_bandwidth,
        le32(bytes_of(x), 108) == x.latency,
        le32(bytes_of(x), 112) == x.frame_exec_time,
        le32(bytes_of(x), 116) == x.txn_op_idx,
        le32(bytes_of(x), 120) == x.ctx_pc,
        le32(bytes_of(x), 124) == x.fatal_error_type,
        le32(bytes_of(x), 128) == x.fatal_error_exception_type,
        le32(bytes_of(x), 132) == x.fatal_error_exception_pc,
        le32(bytes_of(x), 136) == x.fatal_error_app_module,
        le32(bytes_of(x), 140) == x.pad,
{
    let f = x.fields();
    x.laid_out();
    packed_len(f);
    assert(widths_of(f).take(0) =~= seq![]);
    field_at(f, 0, 0);
    field_at(f, 1, 4);
    field_at(f, 2, 8);
    field_at(f, 3, 12);
    field_at(f, 4, 16);
    field_at(f, 5, 24);
    field_at(f, 6, 32);
    field_at(f, 7, 40);
    field_at(f, 8, 48);
    field_at(f, 9, 56);
    field_at(f, 10, 64);
    field_at(f, 11, 72);
    field_at(f, 12, 80);
    field_at(f, 13, 88);
    field_at(f, 14, 92);
    field_at(f, 15, 96);
    field_at(f, 16, 100);
    field_at(f, 17, 104);
    field_at(f, 18, 108);
    field_at(f, 19, 112);
    field_at(f, 20, 116);
    field_at(f, 21, 120);
    field_at(f, 22, 124);
    field_at(f, 23, 128);
    field_at(f, 24, 132);
    field_at(f, 25, 136);
    field_at(f, 26, 140);
    assert(widths_of(f).take(27) =~= widths_of(f));
}

} // verus!
