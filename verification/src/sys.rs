//! The requests of the `amdxdna` driver and the records they carry.

use crate::wire::{bits64, in_range, room, total, widths_of, Field, Plain, Reader, Writer};
use vstd::prelude::*;

verus! {

/// The number of a driver request that reads and writes a record of `size`
/// bytes: the direction, the size, the DRM type and the request's place.
pub open spec fn request(nr: int, size: int) -> int {
    3 * 0x4000_0000 + size * 0x1_0000 + 0x64 * 0x100 + nr
}

/// `DRM_IOWR(nr, size)`; the number has eight bits for the place and
/// fourteen for the size.
pub fn drm_iowr(nr: u32, size: usize) -> (r: u64)
    requires
        nr < 0x100,
        size < 0x4000,
    ensures
        r == request(nr as int, size as int),
{
    3 * 0x4000_0000 + size as u64 * 0x1_0000 + 0x64 * 0x100 + nr as u64
}

/// Requests of different places or sizes have different numbers.
pub proof fn requests_differ(a: int, m: int, b: int, n: int)
    requires
        0 <= a < 0x100,
        0 <= b < 0x100,
        0 <= m < 0x4000,
        0 <= n < 0x4000,
        request(a, m) == request(b, n),
    ensures
        a == b,
        m == n,
{
}

/// The request at place `nr` that carries a `T`.
pub fn request_of<T: Plain>(nr: u32) -> (r: u64)
    requires
        nr < 0x100,
        total(T::widths()) < 0x4000,
    ensures
        r == request(nr as int, total(T::widths()) as int),
{
    drm_iowr(nr, T::size())
}

/// Places of the driver's own requests.
pub const CREATE_HWCTX: u32 = 0x40;

pub const DESTROY_HWCTX: u32 = 0x41;

pub const CONFIG_HWCTX: u32 = 0x42;

pub const CREATE_BO: u32 = 0x43;

pub const GET_BO_INFO: u32 = 0x44;

pub const EXEC_CMD: u32 = 0x46;

pub const GET_INFO: u32 = 0x47;

pub const SET_STATE: u32 = 0x48;

pub const GET_ARRAY: u32 = 0x4a;

/// Places of the requests every DRM driver has.
pub const GEM_CLOSE: u32 = 0x09;

pub const SYNCOBJ_TIMELINE_WAIT: u32 = 0xca;

/// Kinds of buffer objects.
pub const BO_SHARE: u32 = 1;

pub const BO_DEV_HEAP: u32 = 2;

pub const BO_DEV: u32 = 3;

pub const BO_CMD: u32 = 4;

/// Parameters of the queries and of the states to set.
pub const QUERY_AIE_METADATA: u32 = 1;

pub const QUERY_AIE_VERSION: u32 = 2;

pub const QUERY_FIRMWARE_VERSION: u32 = 8;

pub const GET_POWER_MODE: u32 = 9;

pub const HW_CONTEXT_ALL: u32 = 0;

pub const SET_POWER_MODE: u32 = 0;

/// A query: which parameter, and where its answer goes. The request that
/// sets a state has the same layout.
#[derive(Debug, Clone, Copy, PartialEq, Eq, Default)]
pub struct GetInfo {
    pub param: u32,
    pub buffer_size: u32,
    pub buffer: u64,
}

impl Plain for GetInfo {
    open spec fn fields(self) -> Seq<Field> {
        seq![
            Field { width: 4, value: self.param as int },
            Field { width: 4, value: self.buffer_size as int },
            Field { width: 8, value: self.buffer as int },
        ]
    }

    open spec fn widths() -> Seq<nat> {
        seq![4nat, 4nat, 8nat]
    }

    fn size() -> (r: usize) {
        proof {
            sized_getinfo();
        }
        16
    }

    fn put(&self, w: &mut Writer) {
        let ghost before = w.fields();
        w.put32(self.param);
        w.put32(self.buffer_size);
        w.put64(self.buffer);
        assert(w.fields() =~= before + self.fields());
    }

    fn take(r: &mut Reader) -> (x: Self) {
        proof {
            sized_getinfo();
        }
        let ghost before = r.fields();
        let param: u32 = r.get32();
        let buffer_size: u32 = r.get32();
        let buffer: u64 = r.get64();
        let x = GetInfo { param, buffer_size, buffer };
        assert(r.fields() =~= before + x.fields());
        x
    }

    proof fn laid_out(self) {
        reveal_with_fuel(room, 9);
        assert(widths_of(self.fields()) =~= Self::widths());
    }

    proof fn determined(x: Self, y: Self) {
        let (f, g) = (x.fields(), y.fields());
        assert(f[0] == g[0]);
        assert(f[1] == g[1]);
        assert(f[2] == g[2]);
    }
}

proof fn sized_getinfo()
    ensures
        total(GetInfo::widths()) == 16,
{
    let w = GetInfo::widths();
    assert(total(w.take(0)) == 0);
    total_next(w, 0);
    total_next(w, 1);
    total_next(w, 2);
    assert(w.take(3) =~= w);
}

/// What a context asks of the driver's scheduling.
#[derive(Debug, Clone, Copy, PartialEq, Eq, Default)]
pub struct QosInfo {
    pub gops: u32,
    pub fps: u32,
    pub dma_bandwidth: u32,
    pub latency: u32,
    pub frame_exec_time: u32,
    pub priority: u32,
}

impl Plain for QosInfo {
    open spec fn fields(self) -> Seq<Field> {
        seq![
            Field { width: 4, value: self.gops as int },
            Field { width: 4, value: self.fps as int },
            Field { width: 4, value: self.dma_bandwidth as int },
            Field { width: 4, value: self.latency as int },
            Field { width: 4, value: self.frame_exec_time as int },
            Field { width: 4, value: self.priority as int },
        ]
    }

    open spec fn widths() -> Seq<nat> {
        seq![4nat, 4nat, 4nat, 4nat, 4nat, 4nat]
    }

    fn size() -> (r: usize) {
        proof {
            sized_qosinfo();
        }
        24
    }

    fn put(&self, w: &mut Writer) {
        let ghost before = w.fields();
        w.put32(self.gops);
        w.put32(self.fps);
        w.put32(self.dma_bandwidth);
        w.put32(self.latency);
        w.put32(self.frame_exec_time);
        w.put32(self.priority);
        assert(w.fields() =~= before + self.fields());
    }

    fn take(r: &mut Reader) -> (x: Self) {
        proof {
            sized_qosinfo();
        }
        let ghost before = r.fields();
        let gops: u32 = r.get32();
        let fps: u32 = r.get32();
        let dma_bandwidth: u32 = r.get32();
        let latency: u32 = r.get32();
        let frame_exec_time: u32 = r.get32();
        let priority: u32 = r.get32();
        let x = QosInfo { gops, fps, dma_bandwidth, latency, frame_exec_time, priority };
        assert(r.fields() =~= before + x.fields());
        x
    }

    proof fn laid_out(self) {
        reveal_with_fuel(room, 9);
        assert(widths_of(self.fields()) =~= Self::widths());
    }

    proof fn determined(x: Self, y: Self) {
        let (f, g) = (x.fields(), y.fields());
        assert(f[0] == g[0]);
        assert(f[1] == g[1]);
        assert(f[2] == g[2]);
        assert(f[3] == g[3]);
        assert(f[4] == g[4]);
        assert(f[5] == g[5]);
    }
}

proof fn sized_qosinfo()
    ensures
        total(QosInfo::widths()) == 24,
{
    let w = QosInfo::widths();
    assert(total(w.take(0)) == 0);
    total_next(w, 0);
    total_next(w, 1);
    total_next(w, 2);
    total_next(w, 3);
    total_next(w, 4);
    total_next(w, 5);
    assert(w.take(6) =~= w);
}

/// Creates a hardware context; the driver fills in the handles.
#[derive(Debug, Clone, Copy, PartialEq, Eq, Default)]
pub struct CreateHwctx {
    pub ext: u64,
    pub ext_flags: u64,
    pub qos_p: u64,
    pub umq_bo: u32,
    pub log_buf_bo: u32,
    pub max_opc: u32,
    pub num_tiles: u32,
    pub mem_size: u32,
    pub umq_doorbell: u32,
    pub handle: u32,
    pub syncobj_handle: u32,
}

impl Plain for CreateHwctx {
    open spec fn fields(self) -> Seq<Field> {
        seq![
            Field { width: 8, value: self.ext as int },
            Field { width: 8, value: self.ext_flags as int },
            Field { width: 8, value: self.qos_p as int },
            Field { width: 4, value: self.umq_bo as int },
            Field { width: 4, value: self.log_buf_bo as int },
            Field { width: 4, value: self.max_opc as int },
            Field { width: 4, value: self.num_tiles as int },
            Field { width: 4, value: self.mem_size as int },
            Field { width: 4, value: self.umq_doorbell as int },
            Field { width: 4, value: self.handle as int },
            Field { width: 4, value: self.syncobj_handle as int },
        ]
    }

    open spec fn widths() -> Seq<nat> {
        seq![8nat, 8nat, 8nat, 4nat, 4nat, 4nat, 4nat, 4nat, 4nat, 4nat, 4nat]
    }

    fn size() -> (r: usize) {
        proof {
            sized_createhwctx();
        }
        56
    }

    fn put(&self, w: &mut Writer) {
        let ghost before = w.fields();
        w.put64(self.ext);
        w.put64(self.ext_flags);
        w.put64(self.qos_p);
        w.put32(self.umq_bo);
        w.put32(self.log_buf_bo);
        w.put32(self.max_opc);
        w.put32(self.num_tiles);
        w.put32(self.mem_size);
        w.put32(self.umq_doorbell);
        w.put32(self.handle);
        w.put32(self.syncobj_handle);
        assert(w.fields() =~= before + self.fields());
    }

    fn take(r: &mut Reader) -> (x: Self) {
        proof {
            sized_createhwctx();
        }
        let ghost before = r.fields();
        let ext: u64 = r.get64();
        let ext_flags: u64 = r.get64();
        let qos_p: u64 = r.get64();
        let umq_bo: u32 = r.get32();
        let log_buf_bo: u32 = r.get32();
        let max_opc: u32 = r.get32();
        let num_tiles: u32 = r.get32();
        let mem_size: u32 = r.get32();
        let umq_doorbell: u32 = r.get32();
        let handle: u32 = r.get32();
        let syncobj_handle: u32 = r.get32();
        let x = CreateHwctx { ext, ext_flags, qos_p, umq_bo, log_buf_bo, max_opc, num_tiles, mem_size, umq_doorbell, handle, syncobj_handle };
        assert(r.fields() =~= before + x.fields());
        x
    }

    proof fn laid_out(self) {
        reveal_with_fuel(room, 9);
        assert(widths_of(self.fields()) =~= Self::widths());
    }

    proof fn determined(x: Self, y: Self) {
        let (f, g) = (x.fields(), y.fields());
        assert(f[0] == g[0]);
        assert(f[1] == g[1]);
        assert(f[2] == g[2]);
        assert(f[3] == g[3]);
        assert(f[4] == g[4]);
        assert(f[5] == g[5]);
        assert(f[6] == g[6]);
        assert(f[7] == g[7]);
        assert(f[8] == g[8]);
        assert(f[9] == g[9]);
        assert(f[10] == g[10]);
    }
}

proof fn sized_createhwctx()
    ensures
        total(CreateHwctx::widths()) == 56,
{
    let w = CreateHwctx::widths();
    assert(total(w.take(0)) == 0);
    total_next(w, 0);
    total_next(w, 1);
    total_next(w, 2);
    total_next(w, 3);
    total_next(w, 4);
    total_next(w, 5);
    total_next(w, 6);
    total_next(w, 7);
    total_next(w, 8);
    total_next(w, 9);
    total_next(w, 10);
    assert(w.take(11) =~= w);
}

/// A handle to close or destroy.
#[derive(Debug, Clone, Copy, PartialEq, Eq, Default)]
pub struct HandlePad {
    pub handle: u32,
    pub pad: u32,
}

impl Plain for HandlePad {
    open spec fn fields(self) -> Seq<Field> {
        seq![
            Field { width: 4, value: self.handle as int },
            Field { width: 4, value: self.pad as int },
        ]
    }

    open spec fn widths() -> Seq<nat> {
        seq![4nat, 4nat]
    }

    fn size() -> (r: usize) {
        proof {
            sized_handlepad();
        }
        8
    }

    fn put(&self, w: &mut Writer) {
        let ghost before = w.fields();
        w.put32(self.handle);
        w.put32(self.pad);
        assert(w.fields() =~= before + self.fields());
    }

    fn take(r: &mut Reader) -> (x: Self) {
        proof {
            sized_handlepad();
        }
        let ghost before = r.fields();
        let handle: u32 = r.get32();
        let pad: u32 = r.get32();
        let x = HandlePad { handle, pad };
        assert(r.fields() =~= before + x.fields());
        x
    }

    proof fn laid_out(self) {
        reveal_with_fuel(room, 9);
        assert(widths_of(self.fields()) =~= Self::widths());
    }

    proof fn determined(x: Self, y: Self) {
        let (f, g) = (x.fields(), y.fields());
        assert(f[0] == g[0]);
        assert(f[1] == g[1]);
    }
}

proof fn sized_handlepad()
    ensures
        total(HandlePad::widths()) == 8,
{
    let w = HandlePad::widths();
    assert(total(w.take(0)) == 0);
    total_next(w, 0);
    total_next(w, 1);
    assert(w.take(2) =~= w);
}

/// Configures a context with the parameter at `param_val`.
#[derive(Debug, Clone, Copy, PartialEq, Eq, Default)]
pub struct ConfigHwctx {
    pub handle: u32,
    pub param_type: u32,
    pub param_val: u64,
    pub param_val_size: u32,
    pub pad: u32,
}

impl Plain for ConfigHwctx {
    open spec fn fields(self) -> Seq<Field> {
        seq![
            Field { width: 4, value: self.handle as int },
            Field { width: 4, value: self.param_type as int },
            Field { width: 8, value: self.param_val as int },
            Field { width: 4, value: self.param_val_size as int },
            Field { width: 4, value: self.pad as int },
        ]
    }

    open spec fn widths() -> Seq<nat> {
        seq![4nat, 4nat, 8nat, 4nat, 4nat]
    }

    fn size() -> (r: usize) {
        proof {
            sized_confighwctx();
        }
        24
    }

    fn put(&self, w: &mut Writer) {
        let ghost before = w.fields();
        w.put32(self.handle);
        w.put32(self.param_type);
        w.put64(self.param_val);
        w.put32(self.param_val_size);
        w.put32(self.pad);
        assert(w.fields() =~= before + self.fields());
    }

    fn take(r: &mut Reader) -> (x: Self) {
        proof {
            sized_confighwctx();
        }
        let ghost before = r.fields();
        let handle: u32 = r.get32();
        let param_type: u32 = r.get32();
        let param_val: u64 = r.get64();
        let param_val_size: u32 = r.get32();
        let pad: u32 = r.get32();
        let x = ConfigHwctx { handle, param_type, param_val, param_val_size, pad };
        assert(r.fields() =~= before + x.fields());
        x
    }

    proof fn laid_out(self) {
        reveal_with_fuel(room, 9);
        assert(widths_of(self.fields()) =~= Self::widths());
    }

    proof fn determined(x: Self, y: Self) {
        let (f, g) = (x.fields(), y.fields());
        assert(f[0] == g[0]);
        assert(f[1] == g[1]);
        assert(f[2] == g[2]);
        assert(f[3] == g[3]);
        assert(f[4] == g[4]);
    }
}

proof fn sized_confighwctx()
    ensures
        total(ConfigHwctx::widths()) == 24,
{
    let w = ConfigHwctx::widths();
    assert(total(w.take(0)) == 0);
    total_next(w, 0);
    total_next(w, 1);
    total_next(w, 2);
    total_next(w, 3);
    total_next(w, 4);
    assert(w.take(5) =~= w);
}

/// The compute units of a context: one, with the PDI it runs.
#[derive(Debug, Clone, Copy, PartialEq, Eq, Default)]
pub struct ConfigCu {
    pub num_cus: u16,
    pub pad: (u16, u16, u16),
    pub cu_bo: u32,
    pub cu_func: u8,
    pub cu_pad: (u8, u8, u8),
}

impl Plain for ConfigCu {
    open spec fn fields(self) -> Seq<Field> {
        seq![
            Field { width: 2, value: self.num_cus as int },
            Field { width: 2, value: self.pad.0 as int },
            Field { width: 2, value: self.pad.1 as int },
            Field { width: 2, value: self.pad.2 as int },
            Field { width: 4, value: self.cu_bo as int },
            Field { width: 1, value: self.cu_func as int },
            Field { width: 1, value: self.cu_pad.0 as int },
            Field { width: 1, value: self.cu_pad.1 as int },
            Field { width: 1, value: self.cu_pad.2 as int },
        ]
    }

    open spec fn widths() -> Seq<nat> {
        seq![2nat, 2nat, 2nat, 2nat, 4nat, 1nat, 1nat, 1nat, 1nat]
    }

    fn size() -> (r: usize) {
        proof {
            sized_configcu();
        }
        16
    }

    fn put(&self, w: &mut Writer) {
        let ghost before = w.fields();
        w.put16(self.num_cus);
        w.put16(self.pad.0);
        w.put16(self.pad.1);
        w.put16(self.pad.2);
        w.put32(self.cu_bo);
        w.put8(self.cu_func);
        w.put8(self.cu_pad.0);
        w.put8(self.cu_pad.1);
        w.put8(self.cu_pad.2);
        assert(w.fields() =~= before + self.fields());
    }

    fn take(r: &mut Reader) -> (x: Self) {
        proof {
            sized_configcu();
        }
        let ghost before = r.fields();
        let num_cus: u16 = r.get16();
        let pad_0: u16 = r.get16();
        let pad_1: u16 = r.get16();
        let pad_2: u16 = r.get16();
        let pad = (pad_0, pad_1, pad_2);
        let cu_bo: u32 = r.get32();
        let cu_func: u8 = r.get8();
        let cu_pad_0: u8 = r.get8();
        let cu_pad_1: u8 = r.get8();
        let cu_pad_2: u8 = r.get8();
        let cu_pad = (cu_pad_0, cu_pad_1, cu_pad_2);
        let x = ConfigCu { num_cus, pad, cu_bo, cu_func, cu_pad };
        assert(r.fields() =~= before + x.fields());
        x
    }

    proof fn laid_out(self) {
        reveal_with_fuel(room, 9);
        assert(widths_of(self.fields()) =~= Self::widths());
    }

    proof fn determined(x: Self, y: Self) {
        let (f, g) = (x.fields(), y.fields());
        assert(f[0] == g[0]);
        assert(f[1] == g[1]);
        assert(f[2] == g[2]);
        assert(f[3] == g[3]);
        assert(f[4] == g[4]);
        assert(f[5] == g[5]);
        assert(f[6] == g[6]);
        assert(f[7] == g[7]);
        assert(f[8] == g[8]);
    }
}

proof fn sized_configcu()
    ensures
        total(ConfigCu::widths()) == 16,
{
    let w = ConfigCu::widths();
    assert(total(w.take(0)) == 0);
    total_next(w, 0);
    total_next(w, 1);
    total_next(w, 2);
    total_next(w, 3);
    total_next(w, 4);
    total_next(w, 5);
    total_next(w, 6);
    total_next(w, 7);
    total_next(w, 8);
    assert(w.take(9) =~= w);
}

/// Creates a buffer object; the driver fills in the handle.
#[derive(Debug, Clone, Copy, PartialEq, Eq, Default)]
pub struct CreateBo {
    pub flags: u64,
    pub vaddr: u64,
    pub size: u64,
    pub ty: u32,
    pub handle: u32,
}

impl Plain for CreateBo {
    open spec fn fields(self) -> Seq<Field> {
        seq![
            Field { width: 8, value: self.flags as int },
            Field { width: 8, value: self.vaddr as int },
            Field { width: 8, value: self.size as int },
            Field { width: 4, value: self.ty as int },
            Field { width: 4, value: self.handle as int },
        ]
    }

    open spec fn widths() -> Seq<nat> {
        seq![8nat, 8nat, 8nat, 4nat, 4nat]
    }

    fn size() -> (r: usize) {
        proof {
            sized_createbo();
        }
        32
    }

    fn put(&self, w: &mut Writer) {
        let ghost before = w.fields();
        w.put64(self.flags);
        w.put64(self.vaddr);
        w.put64(self.size);
        w.put32(self.ty);
        w.put32(self.handle);
        assert(w.fields() =~= before + self.fields());
    }

    fn take(r: &mut Reader) -> (x: Self) {
        proof {
            sized_createbo();
        }
        let ghost before = r.fields();
        let flags: u64 = r.get64();
        let vaddr: u64 = r.get64();
        let size: u64 = r.get64();
        let ty: u32 = r.get32();
        let handle: u32 = r.get32();
        let x = CreateBo { flags, vaddr, size, ty, handle };
        assert(r.fields() =~= before + x.fields());
        x
    }

    proof fn laid_out(self) {
        reveal_with_fuel(room, 9);
        assert(widths_of(self.fields()) =~= Self::widths());
    }

    proof fn determined(x: Self, y: Self) {
        let (f, g) = (x.fields(), y.fields());
        assert(f[0] == g[0]);
        assert(f[1] == g[1]);
        assert(f[2] == g[2]);
        assert(f[3] == g[3]);
        assert(f[4] == g[4]);
    }
}

proof fn sized_createbo()
    ensures
        total(CreateBo::widths()) == 32,
{
    let w = CreateBo::widths();
    assert(total(w.take(0)) == 0);
    total_next(w, 0);
    total_next(w, 1);
    total_next(w, 2);
    total_next(w, 3);
    total_next(w, 4);
    assert(w.take(5) =~= w);
}

/// Where a buffer object can be mapped and found.
#[derive(Debug, Clone, Copy, PartialEq, Eq, Default)]
pub struct GetBoInfo {
    pub ext: u64,
    pub ext_flags: u64,
    pub handle: u32,
    pub pad: u32,
    pub map_offset: u64,
    pub vaddr: u64,
    pub xdna_addr: u64,
}

impl Plain for GetBoInfo {
    open spec fn fields(self) -> Seq<Field> {
        seq![
            Field { width: 8, value: self.ext as int },
            Field { width: 8, value: self.ext_flags as int },
            Field { width: 4, value: self.handle as int },
            Field { width: 4, value: self.pad as int },
            Field { width: 8, value: self.map_offset as int },
            Field { width: 8, value: self.vaddr as int },
            Field { width: 8, value: self.xdna_addr as int },
        ]
    }

    open spec fn widths() -> Seq<nat> {
        seq![8nat, 8nat, 4nat, 4nat, 8nat, 8nat, 8nat]
    }

    fn size() -> (r: usize) {
        proof {
            sized_getboinfo();
        }
        48
    }

    fn put(&self, w: &mut Writer) {
        let ghost before = w.fields();
        w.put64(self.ext);
        w.put64(self.ext_flags);
        w.put32(self.handle);
        w.put32(self.pad);
        w.put64(self.map_offset);
        w.put64(self.vaddr);
        w.put64(self.xdna_addr);
        assert(w.fields() =~= before + self.fields());
    }

    fn take(r: &mut Reader) -> (x: Self) {
        proof {
            sized_getboinfo();
        }
        let ghost before = r.fields();
        let ext: u64 = r.get64();
        let ext_flags: u64 = r.get64();
        let handle: u32 = r.get32();
        let pad: u32 = r.get32();
        let map_offset: u64 = r.get64();
        let vaddr: u64 = r.get64();
        let xdna_addr: u64 = r.get64();
        let x = GetBoInfo { ext, ext_flags, handle, pad, map_offset, vaddr, xdna_addr };
        assert(r.fields() =~= before + x.fields());
        x
    }

    proof fn laid_out(self) {
        reveal_with_fuel(room, 9);
        assert(widths_of(self.fields()) =~= Self::widths());
    }

    proof fn determined(x: Self, y: Self) {
        let (f, g) = (x.fields(), y.fields());
        assert(f[0] == g[0]);
        assert(f[1] == g[1]);
        assert(f[2] == g[2]);
        assert(f[3] == g[3]);
        assert(f[4] == g[4]);
        assert(f[5] == g[5]);
        assert(f[6] == g[6]);
    }
}

proof fn sized_getboinfo()
    ensures
        total(GetBoInfo::widths()) == 48,
{
    let w = GetBoInfo::widths();
    assert(total(w.take(0)) == 0);
    total_next(w, 0);
    total_next(w, 1);
    total_next(w, 2);
    total_next(w, 3);
    total_next(w, 4);
    total_next(w, 5);
    total_next(w, 6);
    assert(w.take(7) =~= w);
}

/// Submits a command; the driver fills in its sequence number.
#[derive(Debug, Clone, Copy, PartialEq, Eq, Default)]
pub struct ExecCmd {
    pub ext: u64,
    pub ext_flags: u64,
    pub hwctx: u32,
    pub ty: u32,
    pub cmd_handles: u64,
    pub args: u64,
    pub cmd_count: u32,
    pub arg_count: u32,
    pub seq: u64,
}

impl Plain for ExecCmd {
    open spec fn fields(self) -> Seq<Field> {
        seq![
            Field { width: 8, value: self.ext as int },
            Field { width: 8, value: self.ext_flags as int },
            Field { width: 4, value: self.hwctx as int },
            Field { width: 4, value: self.ty as int },
            Field { width: 8, value: self.cmd_handles as int },
            Field { width: 8, value: self.args as int },
            Field { width: 4, value: self.cmd_count as int },
            Field { width: 4, value: self.arg_count as int },
            Field { width: 8, value: self.seq as int },
        ]
    }

    open spec fn widths() -> Seq<nat> {
        seq![8nat, 8nat, 4nat, 4nat, 8nat, 8nat, 4nat, 4nat, 8nat]
    }

    fn size() -> (r: usize) {
        proof {
            sized_execcmd();
        }
        56
    }

    fn put(&self, w: &mut Writer) {
        let ghost before = w.fields();
        w.put64(self.ext);
        w.put64(self.ext_flags);
        w.put32(self.hwctx);
        w.put32(self.ty);
        w.put64(self.cmd_handles);
        w.put64(self.args);
        w.put32(self.cmd_count);
        w.put32(self.arg_count);
        w.put64(self.seq);
        assert(w.fields() =~= before + self.fields());
    }

    fn take(r: &mut Reader) -> (x: Self) {
        proof {
            sized_execcmd();
        }
        let ghost before = r.fields();
        let ext: u64 = r.get64();
        let ext_flags: u64 = r.get64();
        let hwctx: u32 = r.get32();
        let ty: u32 = r.get32();
        let cmd_handles: u64 = r.get64();
        let args: u64 = r.get64();
        let cmd_count: u32 = r.get32();
        let arg_count: u32 = r.get32();
        let seq: u64 = r.get64();
        let x = ExecCmd { ext, ext_flags, hwctx, ty, cmd_handles, args, cmd_count, arg_count, seq };
        assert(r.fields() =~= before + x.fields());
        x
    }

    proof fn laid_out(self) {
        reveal_with_fuel(room, 9);
        assert(widths_of(self.fields()) =~= Self::widths());
    }

    proof fn determined(x: Self, y: Self) {
        let (f, g) = (x.fields(), y.fields());
        assert(f[0] == g[0]);
        assert(f[1] == g[1]);
        assert(f[2] == g[2]);
        assert(f[3] == g[3]);
        assert(f[4] == g[4]);
        assert(f[5] == g[5]);
        assert(f[6] == g[6]);
        assert(f[7] == g[7]);
        assert(f[8] == g[8]);
    }
}

proof fn sized_execcmd()
    ensures
        total(ExecCmd::widths()) == 56,
{
    let w = ExecCmd::widths();
    assert(total(w.take(0)) == 0);
    total_next(w, 0);
    total_next(w, 1);
    total_next(w, 2);
    total_next(w, 3);
    total_next(w, 4);
    total_next(w, 5);
    total_next(w, 6);
    total_next(w, 7);
    total_next(w, 8);
    assert(w.take(9) =~= w);
}

/// Waits for a point of a fence timeline, until an absolute deadline.
#[derive(Debug, Clone, Copy, PartialEq, Eq, Default)]
pub struct SyncobjTimelineWait {
    pub handles: u64,
    pub points: u64,
    pub timeout_nsec: i64,
    pub count_handles: u32,
    pub flags: u32,
    pub first_signaled: u32,
    pub pad: u32,
    pub deadline_nsec: u64,
}

impl Plain for SyncobjTimelineWait {
    open spec fn fields(self) -> Seq<Field> {
        seq![
            Field { width: 8, value: self.handles as int },
            Field { width: 8, value: self.points as int },
            Field { width: 8, value: bits64(self.timeout_nsec) },
            Field { width: 4, value: self.count_handles as int },
            Field { width: 4, value: self.flags as int },
            Field { width: 4, value: self.first_signaled as int },
            Field { width: 4, value: self.pad as int },
            Field { width: 8, value: self.deadline_nsec as int },
        ]
    }

    open spec fn widths() -> Seq<nat> {
        seq![8nat, 8nat, 8nat, 4nat, 4nat, 4nat, 4nat, 8nat]
    }

    fn size() -> (r: usize) {
        proof {
            sized_syncobjtimelinewait();
        }
        48
    }

    fn put(&self, w: &mut Writer) {
        let ghost before = w.fields();
        w.put64(self.handles);
        w.put64(self.points);
        w.put_signed(self.timeout_nsec);
        w.put32(self.count_handles);
        w.put32(self.flags);
        w.put32(self.first_signaled);
        w.put32(self.pad);
        w.put64(self.deadline_nsec);
        assert(w.fields() =~= before + self.fields());
    }

    fn take(r: &mut Reader) -> (x: Self) {
        proof {
            sized_syncobjtimelinewait();
        }
        let ghost before = r.fields();
        let handles: u64 = r.get64();
        let points: u64 = r.get64();
        let timeout_nsec: i64 = r.get_signed();
        let count_handles: u32 = r.get32();
        let flags: u32 = r.get32();
        let first_signaled: u32 = r.get32();
        let pad: u32 = r.get32();
        let deadline_nsec: u64 = r.get64();
        let x = SyncobjTimelineWait { handles, points, timeout_nsec, count_handles, flags, first_signaled, pad, deadline_nsec };
        assert(r.fields() =~= before + x.fields());
        x
    }

    proof fn laid_out(self) {
        reveal_with_fuel(room, 9);
        assert(widths_of(self.fields()) =~= Self::widths());
    }

    proof fn determined(x: Self, y: Self) {
        let (f, g) = (x.fields(), y.fields());
        assert(f[0] == g[0]);
        assert(f[1] == g[1]);
        assert(f[2] == g[2]);
        assert(f[3] == g[3]);
        assert(f[4] == g[4]);
        assert(f[5] == g[5]);
        assert(f[6] == g[6]);
        assert(f[7] == g[7]);
    }
}

proof fn sized_syncobjtimelinewait()
    ensures
        total(SyncobjTimelineWait::widths()) == 48,
{
    let w = SyncobjTimelineWait::widths();
    assert(total(w.take(0)) == 0);
    total_next(w, 0);
    total_next(w, 1);
    total_next(w, 2);
    total_next(w, 3);
    total_next(w, 4);
    total_next(w, 5);
    total_next(w, 6);
    total_next(w, 7);
    assert(w.take(8) =~= w);
}

/// One kind of tile of the array.
#[derive(Debug, Clone, Copy, PartialEq, Eq, Default)]
pub struct TileMetadata {
    pub row_count: u16,
    pub row_start: u16,
    pub dma_channel_count: u16,
    pub lock_count: u16,
    pub event_reg_count: u16,
    pub pad: (u16, u16, u16),
}

impl Plain for TileMetadata {
    open spec fn fields(self) -> Seq<Field> {
        seq![
            Field { width: 2, value: self.row_count as int },
            Field { width: 2, value: self.row_start as int },
            Field { width: 2, value: self.dma_channel_count as int },
            Field { width: 2, value: self.lock_count as int },
            Field { width: 2, value: self.event_reg_count as int },
            Field { width: 2, value: self.pad.0 as int },
            Field { width: 2, value: self.pad.1 as int },
            Field { width: 2, value: self.pad.2 as int },
        ]
    }

    open spec fn widths() -> Seq<nat> {
        seq![2nat, 2nat, 2nat, 2nat, 2nat, 2nat, 2nat, 2nat]
    }

    fn size() -> (r: usize) {
        proof {
            sized_tilemetadata();
        }
        16
    }

    fn put(&self, w: &mut Writer) {
        let ghost before = w.fields();
        w.put16(self.row_count);
        w.put16(self.row_start);
        w.put16(self.dma_channel_count);
        w.put16(self.lock_count);
        w.put16(self.event_reg_count);
        w.put16(self.pad.0);
        w.put16(self.pad.1);
        w.put16(self.pad.2);
        assert(w.fields() =~= before + self.fields());
    }

    fn take(r: &mut Reader) -> (x: Self) {
        proof {
            sized_tilemetadata();
        }
        let ghost before = r.fields();
        let row_count: u16 = r.get16();
        let row_start: u16 = r.get16();
        let dma_channel_count: u16 = r.get16();
        let lock_count: u16 = r.get16();
        let event_reg_count: u16 = r.get16();
        let pad_0: u16 = r.get16();
        let pad_1: u16 = r.get16();
        let pad_2: u16 = r.get16();
        let pad = (pad_0, pad_1, pad_2);
        let x = TileMetadata { row_count, row_start, dma_channel_count, lock_count, event_reg_count, pad };
        assert(r.fields() =~= before + x.fields());
        x
    }

    proof fn laid_out(self) {
        reveal_with_fuel(room, 9);
        assert(widths_of(self.fields()) =~= Self::widths());
    }

    proof fn determined(x: Self, y: Self) {
        let (f, g) = (x.fields(), y.fields());
        assert(f[0] == g[0]);
        assert(f[1] == g[1]);
        assert(f[2] == g[2]);
        assert(f[3] == g[3]);
        assert(f[4] == g[4]);
        assert(f[5] == g[5]);
        assert(f[6] == g[6]);
        assert(f[7] == g[7]);
    }
}

proof fn sized_tilemetadata()
    ensures
        total(TileMetadata::widths()) == 16,
{
    let w = TileMetadata::widths();
    assert(total(w.take(0)) == 0);
    total_next(w, 0);
    total_next(w, 1);
    total_next(w, 2);
    total_next(w, 3);
    total_next(w, 4);
    total_next(w, 5);
    total_next(w, 6);
    total_next(w, 7);
    assert(w.take(8) =~= w);
}

/// The shape of the array.
#[derive(Debug, Clone, Copy, PartialEq, Eq, Default)]
pub struct AieMetadata {
    pub col_size: u32,
    pub cols: u16,
    pub rows: u16,
    pub version: (u32, u32),
    pub core: TileMetadata,
    pub mem: TileMetadata,
    pub shim: TileMetadata,
}

impl Plain for AieMetadata {
    open spec fn fields(self) -> Seq<Field> {
        seq![
            Field { width: 4, value: self.col_size as int },
            Field { width: 2, value: self.cols as int },
            Field { width: 2, value: self.rows as int },
            Field { width: 4, value: self.version.0 as int },
            Field { width: 4, value: self.version.1 as int },
        ] + self.core.fields() + self.mem.fields() + self.shim.fields()
    }

    open spec fn widths() -> Seq<nat> {
        seq![4nat, 2nat, 2nat, 4nat, 4nat] + TileMetadata::widths() + TileMetadata::widths() + TileMetadata::widths()
    }

    fn size() -> (r: usize) {
        proof {
            sized_aiemetadata();
        }
        64
    }

    fn put(&self, w: &mut Writer) {
        let ghost before = w.fields();
        w.put32(self.col_size);
        w.put16(self.cols);
        w.put16(self.rows);
        w.put32(self.version.0);
        w.put32(self.version.1);
        let ghost head = self.fields().take(5);
        assert(w.fields() =~= before + head);
        self.core.put(w);
        self.mem.put(w);
        self.shim.put(w);
        assert(w.fields() =~= before + self.fields()) by {
            assert(self.fields() =~= head + self.core.fields() + self.mem.fields() + self.shim.fields());
        }
    }

    fn take(r: &mut Reader) -> (x: Self) {
        proof {
            sized_aiemetadata();
            sized_tilemetadata();
        }
        let ghost before = r.fields();
        let col_size: u32 = r.get32();
        let cols: u16 = r.get16();
        let rows: u16 = r.get16();
        let version_0: u32 = r.get32();
        let version_1: u32 = r.get32();
        let version = (version_0, version_1);
        let ghost first = r.fields();
        let core = TileMetadata::take(r);
        let mem = TileMetadata::take(r);
        let shim = TileMetadata::take(r);
        let x = AieMetadata { col_size, cols, rows, version, core, mem, shim };
        proof {
            let head = x.fields().take(5);
            assert(first =~= before + head);
            assert(x.fields() =~= head + core.fields() + mem.fields() + shim.fields());
            assert(r.fields() =~= before + x.fields());
        }
        x
    }

    proof fn laid_out(self) {
        reveal_with_fuel(room, 9);
        self.core.laid_out();
        self.mem.laid_out();
        self.shim.laid_out();
        let head = self.fields().take(5);
        assert(self.fields() =~= head + self.core.fields() + self.mem.fields() + self.shim.fields());
        assert(widths_of(self.fields()) =~= widths_of(head) + widths_of(self.core.fields()) + widths_of(self.mem.fields())
            + widths_of(self.shim.fields()));
        assert(widths_of(head) =~= seq![4nat, 2nat, 2nat, 4nat, 4nat]);
        assert(in_range(head));
        assert forall|i: int| 0 <= i < self.fields().len() implies 0 <= (#[trigger] self.fields()[i]).value < room(
            self.fields()[i].width,
        ) by {
            if i < 5 {
                assert(self.fields()[i] == head[i]);
            } else if i < 13 {
                assert(self.fields()[i] == self.core.fields()[i - 5]);
            } else if i < 21 {
                assert(self.fields()[i] == self.mem.fields()[i - 13]);
            } else {
                assert(self.fields()[i] == self.shim.fields()[i - 21]);
            }
        }
    }

    proof fn determined(x: Self, y: Self) {
        let (f, g) = (x.fields(), y.fields());
        assert(f[0] == g[0] && f[1] == g[1] && f[2] == g[2] && f[3] == g[3] && f[4] == g[4]);
        assert(x.core.fields() =~= f.subrange(5, 13));
        assert(y.core.fields() =~= g.subrange(5, 13));
        assert(x.mem.fields() =~= f.subrange(13, 21));
        assert(y.mem.fields() =~= g.subrange(13, 21));
        assert(x.shim.fields() =~= f.subrange(21, 29));
        assert(y.shim.fields() =~= g.subrange(21, 29));
        TileMetadata::determined(x.core, y.core);
        TileMetadata::determined(x.mem, y.mem);
        TileMetadata::determined(x.shim, y.shim);
    }
}

proof fn sized_aiemetadata()
    ensures
        total(AieMetadata::widths()) == 64,
{
    let head = seq![4nat, 2nat, 2nat, 4nat, 4nat];
    let tile = TileMetadata::widths();
    sized_tilemetadata();
    total_next(head, 0);
    total_next(head, 1);
    total_next(head, 2);
    total_next(head, 3);
    total_next(head, 4);
    assert(head.take(0) =~= Seq::empty());
    assert(head.take(5) =~= head);
    total_of_two(head, tile);
    total_of_two(head + tile, tile);
    total_of_two(head + tile + tile, tile);
}

proof fn total_of_two(a: Seq<nat>, b: Seq<nat>)
    ensures
        total(a + b) == total(a) + total(b),
    decreases b.len(),
{
    if b.len() == 0 {
        assert(a + b =~= a);
    } else {
        assert((a + b).drop_last() =~= a + b.drop_last());
        total_of_two(a, b.drop_last());
    }
}

/// A query answered by an array of elements.
#[derive(Debug, Clone, Copy, PartialEq, Eq, Default)]
pub struct GetArray {
    pub param: u32,
    pub element_size: u32,
    pub num_element: u32,
    pub pad: u32,
    pub buffer: u64,
}

impl Plain for GetArray {
    open spec fn fields(self) -> Seq<Field> {
        seq![
            Field { width: 4, value: self.param as int },
            Field { width: 4, value: self.element_size as int },
            Field { width: 4, value: self.num_element as int },
            Field { width: 4, value: self.pad as int },
            Field { width: 8, value: self.buffer as int },
        ]
    }

    open spec fn widths() -> Seq<nat> {
        seq![4nat, 4nat, 4nat, 4nat, 8nat]
    }

    fn size() -> (r: usize) {
        proof {
            sized_getarray();
        }
        24
    }

    fn put(&self, w: &mut Writer) {
        let ghost before = w.fields();
        w.put32(self.param);
        w.put32(self.element_size);
        w.put32(self.num_element);
        w.put32(self.pad);
        w.put64(self.buffer);
        assert(w.fields() =~= before + self.fields());
    }

    fn take(r: &mut Reader) -> (x: Self) {
        proof {
            sized_getarray();
        }
        let ghost before = r.fields();
        let param: u32 = r.get32();
        let element_size: u32 = r.get32();
        let num_element: u32 = r.get32();
        let pad: u32 = r.get32();
        let buffer: u64 = r.get64();
        let x = GetArray { param, element_size, num_element, pad, buffer };
        assert(r.fields() =~= before + x.fields());
        x
    }

    proof fn laid_out(self) {
        reveal_with_fuel(room, 9);
        assert(widths_of(self.fields()) =~= Self::widths());
    }

    proof fn determined(x: Self, y: Self) {
        let (f, g) = (x.fields(), y.fields());
        assert(f[0] == g[0]);
        assert(f[1] == g[1]);
        assert(f[2] == g[2]);
        assert(f[3] == g[3]);
        assert(f[4] == g[4]);
    }
}

proof fn sized_getarray()
    ensures
        total(GetArray::widths()) == 24,
{
    let w = GetArray::widths();
    assert(total(w.take(0)) == 0);
    total_next(w, 0);
    total_next(w, 1);
    total_next(w, 2);
    total_next(w, 3);
    total_next(w, 4);
    assert(w.take(5) =~= w);
}

/// One hardware context in the driver's report.
#[derive(Debug, Clone, Copy, PartialEq, Eq, Default)]
pub struct HwctxEntry {
    pub context_id: u32,
    pub start_col: u32,
    pub num_col: u32,
    pub hwctx_id: u32,
    pub pid: i64,
    pub command_submissions: u64,
    pub command_completions: u64,
    pub migrations: u64,
    pub preemptions: u64,
    pub errors: u64,
    pub priority: u64,
    pub heap_usage: u64,
    pub suspensions: u64,
    pub state: u32,
    pub pasid: u32,
    pub gops: u32,
    pub fps: u32,
    pub dma_bandwidth: u32,
    pub latency: u32,
    pub frame_exec_time: u32,
    pub txn_op_idx: u32,
    pub ctx_pc: u32,
    pub fatal_error_type: u32,
    pub fatal_error_exception_type: u32,
    pub fatal_error_exception_pc: u32,
    pub fatal_error_app_module: u32,
    pub pad: u32,
}

impl Plain for HwctxEntry {
    open spec fn fields(self) -> Seq<Field> {
        seq![
            Field { width: 4, value: self.context_id as int },
            Field { width: 4, value: self.start_col as int },
            Field { width: 4, value: self.num_col as int },
            Field { width: 4, value: self.hwctx_id as int },
            Field { width: 8, value: bits64(self.pid) },
            Field { width: 8, value: self.command_submissions as int },
            Field { width: 8, value: self.command_completions as int },
            Field { width: 8, value: self.migrations as int },
            Field { width: 8, value: self.preemptions as int },
            Field { width: 8, value: self.errors as int },
            Field { width: 8, value: self.priority as int },
            Field { width: 8, value: self.heap_usage as int },
            Field { width: 8, value: self.suspensions as int },
            Field { width: 4, value: self.state as int },
            Field { width: 4, value: self.pasid as int },
            Field { width: 4, value: self.gops as int },
            Field { width: 4, value: self.fps as int },
            Field { width: 4, value: self.dma_bandwidth as int },
            Field { width: 4, value: self.latency as int },
            Field { width: 4, value: self.frame_exec_time as int },
            Field { width: 4, value: self.txn_op_idx as int },
            Field { width: 4, value: self.ctx_pc as int },
            Field { width: 4, value: self.fatal_error_type as int },
            Field { width: 4, value: self.fatal_error_exception_type as int },
            Field { width: 4, value: self.fatal_error_exception_pc as int },
            Field { width: 4, value: self.fatal_error_app_module as int },
            Field { width: 4, value: self.pad as int },
        ]
    }

    open spec fn widths() -> Seq<nat> {
        seq![4nat, 4nat, 4nat, 4nat, 8nat, 8nat, 8nat, 8nat, 8nat, 8nat, 8nat, 8nat, 8nat, 4nat, 4nat, 4nat, 4nat, 4nat, 4nat, 4nat, 4nat, 4nat, 4nat, 4nat, 4nat, 4nat, 4nat]
    }

    fn size() -> (r: usize) {
        proof {
            sized_hwctxentry();
        }
        144
    }

    fn put(&self, w: &mut Writer) {
        let ghost before = w.fields();
        w.put32(self.context_id);
        w.put32(self.start_col);
        w.put32(self.num_col);
        w.put32(self.hwctx_id);
        w.put_signed(self.pid);
        w.put64(self.command_submissions);
        w.put64(self.command_completions);
        w.put64(self.migrations);
        w.put64(self.preemptions);
        w.put64(self.errors);
        w.put64(self.priority);
        w.put64(self.heap_usage);
        w.put64(self.suspensions);
        w.put32(self.state);
        w.put32(self.pasid);
        w.put32(self.gops);
        w.put32(self.fps);
        w.put32(self.dma_bandwidth);
        w.put32(self.latency);
        w.put32(self.frame_exec_time);
        w.put32(self.txn_op_idx);
        w.put32(self.ctx_pc);
        w.put32(self.fatal_error_type);
        w.put32(self.fatal_error_exception_type);
        w.put32(self.fatal_error_exception_pc);
        w.put32(self.fatal_error_app_module);
        w.put32(self.pad);
        assert(w.fields() =~= before + self.fields());
    }

    fn take(r: &mut Reader) -> (x: Self) {
        proof {
            sized_hwctxentry();
        }
        let ghost before = r.fields();
        let context_id: u32 = r.get32();
        let start_col: u32 = r.get32();
        let num_col: u32 = r.get32();
        let hwctx_id: u32 = r.get32();
        let pid: i64 = r.get_signed();
        let command_submissions: u64 = r.get64();
        let command_completions: u64 = r.get64();
        let migrations: u64 = r.get64();
        let preemptions: u64 = r.get64();
        let errors: u64 = r.get64();
        let priority: u64 = r.get64();
        let heap_usage: u64 = r.get64();
        let suspensions: u64 = r.get64();
        let state: u32 = r.get32();
        let pasid: u32 = r.get32();
        let gops: u32 = r.get32();
        let fps: u32 = r.get32();
        let dma_bandwidth: u32 = r.get32();
        let latency: u32 = r.get32();
        let frame_exec_time: u32 = r.get32();
        let txn_op_idx: u32 = r.get32();
        let ctx_pc: u32 = r.get32();
        let fatal_error_type: u32 = r.get32();
        let fatal_error_exception_type: u32 = r.get32();
        let fatal_error_exception_pc: u32 = r.get32();
        let fatal_error_app_module: u32 = r.get32();
        let pad: u32 = r.get32();
        let x = HwctxEntry { context_id, start_col, num_col, hwctx_id, pid, command_submissions, command_completions, migrations, preemptions, errors, priority, heap_usage, suspensions, state, pasid, gops, fps, dma_bandwidth, latency, frame_exec_time, txn_op_idx, ctx_pc, fatal_error_type, fatal_error_exception_type, fatal_error_exception_pc, fatal_error_app_module, pad };
        assert(r.fields() =~= before + x.fields());
        x
    }

    proof fn laid_out(self) {
        reveal_with_fuel(room, 9);
        assert(widths_of(self.fields()) =~= Self::widths());
    }

    proof fn determined(x: Self, y: Self) {
        let (f, g) = (x.fields(), y.fields());
        assert(f[0] == g[0]);
        assert(f[1] == g[1]);
        assert(f[2] == g[2]);
        assert(f[3] == g[3]);
        assert(f[4] == g[4]);
        assert(f[5] == g[5]);
        assert(f[6] == g[6]);
        assert(f[7] == g[7]);
        assert(f[8] == g[8]);
        assert(f[9] == g[9]);
        assert(f[10] == g[10]);
        assert(f[11] == g[11]);
        assert(f[12] == g[12]);
        assert(f[13] == g[13]);
        assert(f[14] == g[14]);
        assert(f[15] == g[15]);
        assert(f[16] == g[16]);
        assert(f[17] == g[17]);
        assert(f[18] == g[18]);
        assert(f[19] == g[19]);
        assert(f[20] == g[20]);
        assert(f[21] == g[21]);
        assert(f[22] == g[22]);
        assert(f[23] == g[23]);
        assert(f[24] == g[24]);
        assert(f[25] == g[25]);
        assert(f[26] == g[26]);
    }
}

proof fn sized_hwctxentry()
    ensures
        total(HwctxEntry::widths()) == 144,
{
    let w = HwctxEntry::widths();
    assert(total(w.take(0)) == 0);
    total_next(w, 0);
    total_next(w, 1);
    total_next(w, 2);
    total_next(w, 3);
    total_next(w, 4);
    total_next(w, 5);
    total_next(w, 6);
    total_next(w, 7);
    total_next(w, 8);
    total_next(w, 9);
    total_next(w, 10);
    total_next(w, 11);
    total_next(w, 12);
    total_next(w, 13);
    total_next(w, 14);
    total_next(w, 15);
    total_next(w, 16);
    total_next(w, 17);
    total_next(w, 18);
    total_next(w, 19);
    total_next(w, 20);
    total_next(w, 21);
    total_next(w, 22);
    total_next(w, 23);
    total_next(w, 24);
    total_next(w, 25);
    total_next(w, 26);
    assert(w.take(27) =~= w);
}

proof fn total_next(w: Seq<nat>, i: int)
    requires
        0 <= i < w.len(),
    ensures
        total(w.take(i + 1)) == total(w.take(i)) + w[i],
{
    assert(w.take(i + 1).drop_last() =~= w.take(i));
}

} // verus!
