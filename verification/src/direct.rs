//! Running a kernel through the `amdxdna` driver's own requests: what they
//! carry, what a launch submits, and what its end means.

use crate::ieee::{from_int, nearest_up, of_int, over, quotient, to_nearest_up, DOUBLE};
use crate::sys::{ConfigCu, ConfigHwctx, CreateHwctx, ExecCmd, GetArray, GetInfo, HwctxEntry, QosInfo, SyncobjTimelineWait};
use crate::text::{cat2, cat3, cat4, cat7, decimal, decimal_of};
use crate::xrt::{comes_to, Error, Fault};
use vstd::prelude::*;

verus! {

/// Argument buffers the `MLIR_AIE` kernel takes (`bo0`…`bo4`).
pub const MAX_ARGS: usize = 5;

/// The device heap, which the firmware wants at a multiple of its size.
pub const HEAP_SIZE: usize = 0x400_0000;

pub const CMD_BYTES: usize = 4096;

/// How long a run may take before it is reported as hung, in nanoseconds.
pub const RUN_TIMEOUT: i64 = 10_000_000_000;

/// The node of the NPU `device_index`.
pub fn device_path(device_index: u32) -> (r: String)
    ensures
        r@ == "/dev/accel/accel"@ + decimal(device_index as nat),
{
    let n = decimal_of(device_index as u128);
    cat2("/dev/accel/accel", n.as_str())
}

// ----------------------------------------------------------------------------
// Power modes
// ----------------------------------------------------------------------------

/// The NPU power modes.
#[derive(Debug, Clone, Copy, PartialEq, Eq)]
pub enum PowerMode {
    /// The driver's own choice.
    Default,
    Low,
    Medium,
    High,
    /// Maximum clocks.
    Turbo,
}

impl PowerMode {
    /// The driver's number for the mode.
    pub open spec fn number(self) -> u8 {
        match self {
            PowerMode::Default => 0,
            PowerMode::Low => 1,
            PowerMode::Medium => 2,
            PowerMode::High => 3,
            PowerMode::Turbo => 4,
        }
    }

    pub fn raw(self) -> (r: u8)
        ensures
            r == self.number(),
    {
        match self {
            PowerMode::Default => 0,
            PowerMode::Low => 1,
            PowerMode::Medium => 2,
            PowerMode::High => 3,
            PowerMode::Turbo => 4,
        }
    }

    /// The mode with the number `v`, if there is one.
    pub fn from_raw(v: u8) -> (r: Option<PowerMode>)
        ensures
            r is Some <==> v <= 4,
            r matches Some(m) ==> m.number() == v,
    {
        match v {
            0 => Some(PowerMode::Default),
            1 => Some(PowerMode::Low),
            2 => Some(PowerMode::Medium),
            3 => Some(PowerMode::High),
            4 => Some(PowerMode::Turbo),
            _ => None,
        }
    }

    /// The mode in the driver's answer, whose first byte numbers it.
    pub fn from_answer(first: u8) -> (r: Result<PowerMode, Error>)
        ensures
            r is Ok <==> first <= 4,
            r matches Ok(m) ==> m.number() == first,
            r matches Err(e) ==> e@ == Fault::Device("unknown power mode "@ + decimal(first as nat)),
    {
        match PowerMode::from_raw(first) {
            Some(m) => Ok(m),
            None => {
                let n = decimal_of(first as u128);
                Err(Error::Device(cat2("unknown power mode ", n.as_str())))
            },
        }
    }
}

/// Different modes have different numbers.
pub proof fn numbers_tell_modes(a: PowerMode, b: PowerMode)
    ensures
        a.number() == b.number() ==> a == b,
{
}

// ----------------------------------------------------------------------------
// Hardware contexts
// ----------------------------------------------------------------------------

/// One hardware context as the driver reports it.
#[derive(Debug, Clone, Copy, PartialEq, Eq)]
pub struct ContextInfo {
    pub context_id: u32,
    pub pid: i64,
    pub start_col: u32,
    pub num_col: u32,
    pub submissions: u64,
    pub completions: u64,
    pub errors: u64,
    /// The driver's context state: active (loaded on the array) or idle.
    pub active: bool,
    /// Where its instruction stream is, and why it died if it did (0: it
    /// did not).
    pub txn_op_idx: u32,
    pub fatal_error_type: u32,
}

/// What an entry of the driver's report says.
pub open spec fn info_of(h: HwctxEntry) -> ContextInfo {
    ContextInfo {
        context_id: h.context_id,
        pid: h.pid,
        start_col: h.start_col,
        num_col: h.num_col,
        submissions: h.command_submissions,
        completions: h.command_completions,
        errors: h.errors,
        active: h.state == 1,
        txn_op_idx: h.txn_op_idx,
        fatal_error_type: h.fatal_error_type,
    }
}

/// How many entries of a report to ask for.
pub const REPORT_ENTRIES: usize = 64;

/// The entries the driver filled in: `filled` of them, at most as many as
/// there are.
pub open spec fn reported(entries: Seq<HwctxEntry>, filled: int) -> Seq<ContextInfo> {
    entries.take(
        if filled < entries.len() {
            filled
        } else {
            entries.len() as int
        },
    ).map_values(|h: HwctxEntry| info_of(h))
}

pub fn contexts(entries: &[HwctxEntry], filled: u32) -> (r: Vec<ContextInfo>)
    ensures
        r@ == reported(entries@, filled as int),
{
    let n: usize = if (filled as u64) < entries.len() as u64 {
        filled as usize
    } else {
        entries.len()
    };
    let mut r: Vec<ContextInfo> = Vec::new();
    let mut i: usize = 0;
    while i < n
        invariant
            i <= n <= entries.len(),
            r.len() == i,
            forall|k: int| 0 <= k < i ==> r@[k] == info_of(#[trigger] entries@[k]),
        decreases n - i,
    {
        let h = entries[i];
        r.push(
            ContextInfo {
                context_id: h.context_id,
                pid: h.pid,
                start_col: h.start_col,
                num_col: h.num_col,
                submissions: h.command_submissions,
                completions: h.command_completions,
                errors: h.errors,
                active: h.state == 1,
                txn_op_idx: h.txn_op_idx,
                fatal_error_type: h.fatal_error_type,
            },
        );
        i = i + 1;
    }
    assert(r@ =~= reported(entries@, filled as int));
    r
}

/// `ops` per run in whole GOP, the unit of a context's declared work: the
/// double nearest to `ops / 10^9`, rounded, at most what the field holds. A
/// kernel under half a GOP declares nothing.
pub open spec fn declared(ops: nat) -> nat {
    let g = nearest_up(quotient(DOUBLE as nat, of_int(DOUBLE as nat, ops), of_int(DOUBLE as nat, 1_000_000_000)));
    if g <= u32::MAX {
        g
    } else {
        u32::MAX as nat
    }
}

pub fn gops(ops: u64) -> (r: u32)
    ensures
        r == declared(ops as nat),
{
    let billion = from_int(DOUBLE, 1_000_000_000);
    let x = over(DOUBLE, from_int(DOUBLE, ops), billion);
    to_nearest_up(x, u32::MAX as u64) as u32
}

/// What tells hardware contexts apart: kernels of one xclbin and one kernel
/// name share a context.
pub open spec fn key_of(xclbin: Seq<char>, kernel_name: Option<Seq<char>>) -> Seq<char> {
    xclbin + "\n"@ + name_or_empty(kernel_name)
}

pub open spec fn name_or_empty(name: Option<Seq<char>>) -> Seq<char> {
    match name {
        Some(n) => n,
        None => ""@,
    }
}

pub fn context_key(xclbin: &str, kernel_name: Option<&str>) -> (r: String)
    ensures
        r@ == key_of(
            xclbin@,
            match kernel_name {
                Some(n) => Some(n@),
                None => None,
            },
        ),
{
    match kernel_name {
        Some(n) => cat3(xclbin, "\n", n),
        None => cat3(xclbin, "\n", ""),
    }
}

proof fn first_newline(a: Seq<char>, x: Seq<char>, b: Seq<char>, y: Seq<char>)
    requires
        !a.contains('\n'),
        !b.contains('\n'),
        a + seq!['\n'] + x == b + seq!['\n'] + y,
    ensures
        a == b,
        x == y,
{
    let s = a + seq!['\n'] + x;
    let t = b + seq!['\n'] + y;
    if a.len() < b.len() {
        assert(s[a.len() as int] == '\n');
        assert(t[a.len() as int] == b[a.len() as int]);
        assert(b.contains('\n'));
    } else if b.len() < a.len() {
        assert(t[b.len() as int] == '\n');
        assert(s[b.len() as int] == a[b.len() as int]);
        assert(a.contains('\n'));
    } else {
        assert(a =~= s.take(a.len() as int));
        assert(b =~= t.take(a.len() as int));
        assert(x =~= s.skip(a.len() as int + 1));
        assert(y =~= t.skip(a.len() as int + 1));
    }
}

/// Contexts of different xclbins, or of different kernels of one, have
/// different keys, for xclbin paths of one line.
pub proof fn keys_tell_contexts(a: Seq<char>, x: Option<Seq<char>>, b: Seq<char>, y: Option<Seq<char>>)
    requires
        !a.contains('\n'),
        !b.contains('\n'),
        key_of(a, x) == key_of(b, y),
    ensures
        a == b,
        name_or_empty(x) == name_or_empty(y),
{
    reveal_strlit("\n");
    assert("\n"@ =~= seq!['\n']);
    first_newline(a, name_or_empty(x), b, name_or_empty(y));
}

/// A query for `param`, answered in `size` bytes at `buffer`.
pub fn query(param: u32, size: u32, buffer: u64) -> (r: GetInfo)
    ensures
        r == (GetInfo { param, buffer_size: size, buffer }),
{
    GetInfo { param, buffer_size: size, buffer }
}

/// The query for the report of every context.
pub fn context_query(element_size: u32, buffer: u64) -> (r: GetArray)
    ensures
        r == (GetArray {
            param: crate::sys::HW_CONTEXT_ALL,
            element_size,
            num_element: REPORT_ENTRIES as u32,
            pad: 0,
            buffer,
        }),
{
    GetArray { param: crate::sys::HW_CONTEXT_ALL, element_size, num_element: REPORT_ENTRIES as u32, pad: 0, buffer }
}

/// The work a context declares.
pub fn qos(ops: u64) -> (r: QosInfo)
    ensures
        r.gops == declared(ops as nat),
        r == (QosInfo { gops: r.gops, fps: 0, dma_bandwidth: 0, latency: 0, frame_exec_time: 0, priority: 0 }),
{
    QosInfo { gops: gops(ops), fps: 0, dma_bandwidth: 0, latency: 0, frame_exec_time: 0, priority: 0 }
}

/// The request for a context of a partition `column_width` columns wide on
/// an array of `core_rows` rows of cores: all of its core tiles, 2048
/// operations a cycle.
pub fn create_hwctx(column_width: u16, core_rows: u16, qos_p: u64) -> (r: CreateHwctx)
    ensures
        r == (CreateHwctx {
            ext: 0,
            ext_flags: 0,
            qos_p,
            umq_bo: 0,
            log_buf_bo: 0,
            max_opc: 2048,
            num_tiles: (column_width * core_rows) as u32,
            mem_size: 0,
            umq_doorbell: 0,
            handle: 0,
            syncobj_handle: 0,
        }),
        r.num_tiles == column_width * core_rows,
{
    proof {
        assert(column_width * core_rows <= 0xffff * 0xffff) by (nonlinear_arith)
            requires
                0 <= column_width <= 0xffff,
                0 <= core_rows <= 0xffff,
        ;
    }
    CreateHwctx {
        ext: 0,
        ext_flags: 0,
        qos_p,
        umq_bo: 0,
        log_buf_bo: 0,
        max_opc: 2048,
        num_tiles: column_width as u32 * core_rows as u32,
        mem_size: 0,
        umq_doorbell: 0,
        handle: 0,
        syncobj_handle: 0,
    }
}

/// One compute unit, which runs the PDI in the buffer object `pdi`.
pub fn config_cu(pdi: u32) -> (r: ConfigCu)
    ensures
        r == (ConfigCu { num_cus: 1, pad: (0, 0, 0), cu_bo: pdi, cu_func: 0, cu_pad: (0, 0, 0) }),
{
    ConfigCu { num_cus: 1, pad: (0, 0, 0), cu_bo: pdi, cu_func: 0, cu_pad: (0, 0, 0) }
}

/// The request that binds the compute units at `cu`, `size` bytes, to the
/// context `handle`.
pub fn config_hwctx(handle: u32, cu: u64, size: u32) -> (r: ConfigHwctx)
    ensures
        r == (ConfigHwctx { handle, param_type: 0, param_val: cu, param_val_size: size, pad: 0 }),
{
    ConfigHwctx { handle, param_type: 0, param_val: cu, param_val_size: size, pad: 0 }
}

// ----------------------------------------------------------------------------
// Launches
// ----------------------------------------------------------------------------

pub fn check_args(n: usize) -> (r: Result<(), Error>)
    ensures
        comes_to(
            r,
            if n <= MAX_ARGS {
                Ok(())
            } else {
                Err(Fault::Run(decimal(n as nat) + " buffer arguments; the kernel takes at most "@ + decimal(5)))
            },
        ),
{
    if n <= MAX_ARGS {
        Ok(())
    } else {
        let a = decimal_of(n as u128);
        let b = decimal_of(5);
        Err(Error::Run(cat3(a.as_str(), " buffer arguments; the kernel takes at most ", b.as_str())))
    }
}

pub open spec fn low_word(v: u64) -> int {
    v as int % 0x1_0000_0000
}

pub open spec fn high_word(v: u64) -> int {
    v as int / 0x1_0000_0000
}

/// The word at `k` of a packet: the header (state NEW, sixteen words after
/// it, no opcode bits, type CU), the first compute unit, the opcode that
/// runs an instruction stream, the stream's address and size, and the
/// addresses of the argument buffers, unused ones zero.
pub open spec fn packet_word(instr: u64, ninstr_bytes: u32, bufs: Seq<u64>, k: int) -> int {
    if k == 0 {
        1int + 16 * 0x1000 + 3 * 0x1000_0000
    } else if k == 1 {
        1
    } else if k == 2 {
        3
    } else if k == 4 {
        low_word(instr)
    } else if k == 5 {
        high_word(instr)
    } else if k == 6 {
        ninstr_bytes as int
    } else if k >= 7 && (k - 7) / 2 < bufs.len() {
        if (k - 7) % 2 == 0 {
            low_word(bufs[(k - 7) / 2])
        } else {
            high_word(bufs[(k - 7) / 2])
        }
    } else {
        0
    }
}

fn halves(bufs: &[u64], i: usize) -> (r: (u32, u32))
    ensures
        r.0 == (if i < bufs.len() {
            low_word(bufs@[i as int])
        } else {
            0
        }),
        r.1 == (if i < bufs.len() {
            high_word(bufs@[i as int])
        } else {
            0
        }),
{
    if i < bufs.len() {
        ((bufs[i] % 0x1_0000_0000) as u32, (bufs[i] / 0x1_0000_0000) as u32)
    } else {
        (0, 0)
    }
}

/// The `ERT_START_CU` packet for IRON's `MLIR_AIE` kernel over the buffers
/// at `bufs`, of which the first [`MAX_ARGS`] count.
pub fn packet(instr: u64, ninstr_bytes: u32, bufs: &[u64]) -> (r: [u32; 17])
    ensures
        forall|k: int| 0 <= k < 17 ==> #[trigger] r@[k] == packet_word(instr, ninstr_bytes, bufs@, k),
{
    let a = halves(bufs, 0);
    let b = halves(bufs, 1);
    let c = halves(bufs, 2);
    let d = halves(bufs, 3);
    let e = halves(bufs, 4);
    [
        0x3001_0001,
        1,
        3,
        0,
        (instr % 0x1_0000_0000) as u32,
        (instr / 0x1_0000_0000) as u32,
        ninstr_bytes,
        a.0,
        a.1,
        b.0,
        b.1,
        c.0,
        c.1,
        d.0,
        d.1,
        e.0,
        e.1,
    ]
}

/// Each of the addresses a packet carries can be read back from it.
pub proof fn packet_keeps_addresses(instr: u64, ninstr_bytes: u32, bufs: Seq<u64>, i: int)
    requires
        0 <= i < bufs.len(),
        i < MAX_ARGS,
    ensures
        packet_word(instr, ninstr_bytes, bufs, 7 + 2 * i) + 0x1_0000_0000 * packet_word(
            instr,
            ninstr_bytes,
            bufs,
            8 + 2 * i,
        ) == bufs[i],
        packet_word(instr, ninstr_bytes, bufs, 4) + 0x1_0000_0000 * packet_word(instr, ninstr_bytes, bufs, 5) == instr,
{
}

/// `first`, then those of `rest` in order, once each.
pub open spec fn distinct(first: u32, rest: Seq<u32>) -> Seq<u32>
    decreases rest.len(),
{
    if rest.len() == 0 {
        seq![first]
    } else {
        let before = distinct(first, rest.drop_last());
        if before.contains(rest.last()) {
            before
        } else {
            before.push(rest.last())
        }
    }
}

fn among(v: &Vec<u32>, x: u32) -> (r: bool)
    ensures
        r == v@.contains(x),
{
    let mut i: usize = 0;
    while i < v.len()
        invariant
            i <= v.len(),
            forall|k: int| 0 <= k < i ==> v@[k] != x,
        decreases v.len() - i,
    {
        if v[i] == x {
            return true;
        }
        i = i + 1;
    }
    false
}

/// The buffer objects a command references, for the driver to pin (a
/// sub-buffer's is its parent's), once each, the instructions' first.
pub fn pinned(instr: u32, args: &[u32]) -> (r: Vec<u32>)
    ensures
        r@ == distinct(instr, args@),
{
    let mut r: Vec<u32> = Vec::new();
    r.push(instr);
    assert(r@ =~= seq![instr]);
    let mut i: usize = 0;
    while i < args.len()
        invariant
            i <= args.len(),
            r@ == distinct(instr, args@.take(i as int)),
        decreases args.len() - i,
    {
        assert(args@.take(i + 1).drop_last() =~= args@.take(i as int));
        if !among(&r, args[i]) {
            r.push(args[i]);
        }
        i = i + 1;
    }
    assert(args@.take(args@.len() as int) =~= args@);
    r
}

/// What `pinned` lists: each referenced object, and none twice.
pub proof fn pinned_are_distinct(first: u32, rest: Seq<u32>)
    ensures
        forall|x: u32| #[trigger] distinct(first, rest).contains(x) <==> x == first || rest.contains(x),
        forall|i: int, j: int|
            0 <= i < j < distinct(first, rest).len() ==> distinct(first, rest)[i] != distinct(first, rest)[j],
        distinct(first, rest)[0] == first,
    decreases rest.len(),
{
    let all = distinct(first, rest);
    if rest.len() == 0 {
        assert(all[0] == first);
        assert forall|x: u32| #[trigger] all.contains(x) <==> x == first || rest.contains(x) by {
            if x == first {
                assert(all[0] == x);
            }
        }
    } else {
        pinned_are_distinct(first, rest.drop_last());
        let before = distinct(first, rest.drop_last());
        let x = rest.last();
        assert(before.len() > 0) by {
            assert(before.contains(first));
        }
        assert forall|y: u32| #[trigger] all.contains(y) <==> y == first || rest.contains(y) by {
            if rest.contains(y) {
                let k = choose|k: int| 0 <= k < rest.len() && rest[k] == y;
                if k < rest.len() - 1 {
                    assert(rest.drop_last()[k] == y);
                    assert(rest.drop_last().contains(y));
                }
            }
            if rest.drop_last().contains(y) {
                let k = choose|k: int| 0 <= k < rest.drop_last().len() && rest.drop_last()[k] == y;
                assert(rest[k] == y);
            }
            assert(before.contains(y) <==> y == first || rest.drop_last().contains(y));
            if before.contains(x) {
            } else {
                if before.contains(y) {
                    let k = choose|k: int| 0 <= k < before.len() && before[k] == y;
                    assert(all[k] == y);
                }
                assert(all[before.len() as int] == x);
                if all.contains(y) && y != x {
                    let k = choose|k: int| 0 <= k < all.len() && all[k] == y;
                    assert(before[k] == y);
                }
            }
            assert(rest[rest.len() - 1] == x);
        }
        if !before.contains(x) {
            assert forall|i: int, j: int| 0 <= i < j < all.len() implies all[i] != all[j] by {
                if j == before.len() {
                    assert(before[i] == all[i]);
                }
            }
        }
    }
}

/// The submission of the command `cmd` to the context `hwctx`, pinning the
/// `pins` objects listed at `args`.
pub fn exec_cmd(hwctx: u32, cmd: u32, args: u64, pins: u32) -> (r: ExecCmd)
    ensures
        r == (ExecCmd {
            ext: 0,
            ext_flags: 0,
            hwctx,
            ty: 0,
            cmd_handles: cmd as u64,
            args,
            cmd_count: 1,
            arg_count: pins,
            seq: 0,
        }),
{
    ExecCmd {
        ext: 0,
        ext_flags: 0,
        hwctx,
        ty: 0,
        cmd_handles: cmd as u64,
        args,
        cmd_count: 1,
        arg_count: pins,
        seq: 0,
    }
}

/// The wait for one fence point, at `now` on the monotonic clock. The
/// driver reads the timeout as an absolute time: a relative one is already
/// past, and the wait gives up before the NPU has started.
pub fn fence_wait(handles: u64, points: u64, now: i64) -> (r: SyncobjTimelineWait)
    requires
        now + RUN_TIMEOUT <= i64::MAX,
    ensures
        r == (SyncobjTimelineWait {
            handles,
            points,
            timeout_nsec: (now + RUN_TIMEOUT) as i64,
            count_handles: 1,
            flags: 0,
            first_signaled: 0,
            pad: 0,
            deadline_nsec: 0,
        }),
{
    SyncobjTimelineWait {
        handles,
        points,
        timeout_nsec: now + RUN_TIMEOUT,
        count_handles: 1,
        flags: 0,
        first_signaled: 0,
        pad: 0,
        deadline_nsec: 0,
    }
}

/// How a wait for a fence ended.
#[derive(Debug)]
pub enum Signal {
    Done,
    TimedOut,
    /// The wait itself failed, with this message.
    Failed(String),
}

/// What a launch came to, and whether its command buffer may carry another:
/// the firmware may still hold one whose fence was not seen.
#[derive(Debug)]
pub struct Outcome {
    pub result: Result<(), Error>,
    pub reuse: bool,
}

pub open spec fn state_name(state: int) -> Seq<char> {
    if state == 1 {
        "NEW"@
    } else if state == 2 {
        "QUEUED"@
    } else if state == 3 {
        "RUNNING"@
    } else if state == 4 {
        "COMPLETED"@
    } else if state == 5 {
        "ERROR"@
    } else if state == 6 {
        "ABORT"@
    } else if state == 7 {
        "SUBMITTED"@
    } else if state == 8 {
        "TIMEOUT"@
    } else if state == 9 {
        "NORESPONSE"@
    } else {
        "?"@
    }
}

pub open spec fn state_text(state: int) -> Seq<char> {
    decimal(state as nat) + " ("@ + state_name(state) + ")"@
}

/// A command's state, numbered and named.
pub fn ert_state(state: u32) -> (r: String)
    ensures
        r@ == state_text(state as int),
{
    let name = match state {
        1 => "NEW",
        2 => "QUEUED",
        3 => "RUNNING",
        4 => "COMPLETED",
        5 => "ERROR",
        6 => "ABORT",
        7 => "SUBMITTED",
        8 => "TIMEOUT",
        9 => "NORESPONSE",
        _ => "?",
    };
    let n = decimal_of(state as u128);
    cat4(n.as_str(), " (", name, ")")
}

/// What a launch came to, by how its wait ended and the first word of its
/// packet, into whose low four bits the firmware writes the state.
pub open spec fn verdict(signal: Signal, header: u32) -> Result<(), Fault> {
    let state = header as int % 16;
    match signal {
        Signal::Done => if state == 4 {
            Ok(())
        } else {
            Err(Fault::Run("the command finished in state "@ + state_text(state)))
        },
        Signal::TimedOut => Err(
            Fault::Run("the command did not finish within 10 s, in state "@ + state_text(state)),
        ),
        Signal::Failed(m) => Err(Fault::Run("SYNCOBJ_TIMELINE_WAIT: "@ + m@)),
    }
}

pub fn finish(signal: &Signal, header: u32) -> (r: Outcome)
    ensures
        comes_to(r.result, verdict(*signal, header)),
        r.reuse == (*signal is Done),
{
    let state: u32 = header % 16;
    match signal {
        Signal::Done => {
            let result = if state == 4 {
                Ok(())
            } else {
                let s = ert_state(state);
                Err(Error::Run(cat2("the command finished in state ", s.as_str())))
            };
            Outcome { result, reuse: true }
        },
        Signal::TimedOut => {
            let s = ert_state(state);
            Outcome {
                result: Err(Error::Run(cat2("the command did not finish within 10 s, in state ", s.as_str()))),
                reuse: false,
            }
        },
        Signal::Failed(m) => Outcome {
            result: Err(Error::Run(cat2("SYNCOBJ_TIMELINE_WAIT: ", m.as_str()))),
            reuse: false,
        },
    }
}

/// A launch succeeds only when its fence was seen and the firmware marked
/// the command completed; only then, or on another state behind a seen
/// fence, is the command buffer free.
pub proof fn success_is_a_seen_completion(signal: Signal, header: u32)
    ensures
        verdict(signal, header) is Ok <==> (signal is Done && header as int % 16 == 4),
{
}

// ----------------------------------------------------------------------------
// Buffers
// ----------------------------------------------------------------------------

/// A run of an allocation: a buffer, or a view of part of one.
#[derive(Debug, Clone, Copy, PartialEq, Eq)]
pub struct Span {
    pub offset: usize,
    pub bytes: usize,
}

impl Span {
    /// Inside an allocation of `size` bytes.
    pub open spec fn inside(self, size: int) -> bool {
        self.offset + self.bytes <= size
    }

    pub open spec fn part(self, offset: int, bytes: int) -> Result<Span, Fault> {
        if offset + bytes <= self.bytes {
            Ok(Span { offset: (self.offset + offset) as usize, bytes: bytes as usize })
        } else {
            Err(
                Fault::Buffer(
                    "sub-buffer ["@ + decimal(offset as nat) + ", +"@ + decimal(bytes as nat)
                        + ") outside a buffer of "@ + decimal(self.bytes as nat) + " bytes"@,
                ),
            )
        }
    }

    /// All of an allocation of `bytes` bytes.
    pub fn whole(bytes: usize) -> (r: Span)
        ensures
            r == (Span { offset: 0, bytes }),
            r.inside(bytes as int),
    {
        Span { offset: 0, bytes }
    }

    pub fn len_bytes(&self) -> (r: usize)
        ensures
            r == self.bytes,
    {
        self.bytes
    }

    /// A view of `bytes` bytes of this buffer from `offset`, a buffer in its
    /// own right.
    pub fn sub(&self, offset: usize, bytes: usize) -> (r: Result<Span, Error>)
        requires
            self.inside(usize::MAX as int),
        ensures
            comes_to(r, self.part(offset as int, bytes as int)),
            r matches Ok(s) ==> s.offset == self.offset + offset && s.bytes == bytes,
    {
        if bytes <= self.bytes && offset <= self.bytes - bytes {
            Ok(Span { offset: self.offset + offset, bytes })
        } else {
            let a = decimal_of(offset as u128);
            let b = decimal_of(bytes as u128);
            let c = decimal_of(self.bytes as u128);
            Err(
                Error::Buffer(
                    cat7(
                        "sub-buffer [",
                        a.as_str(),
                        ", +",
                        b.as_str(),
                        ") outside a buffer of ",
                        c.as_str(),
                        " bytes",
                    ),
                ),
            )
        }
    }

    /// [`sub`](Span::sub) in elements of `size` bytes.
    pub fn sub_of(&self, size: usize, offset: usize, n: usize) -> (r: Result<Span, Error>)
        requires
            self.inside(usize::MAX as int),
            offset * size <= usize::MAX,
            n * size <= usize::MAX,
        ensures
            comes_to(r, self.part(offset * size, n * size)),
            r matches Ok(s) ==> s.offset == self.offset + offset * size && s.bytes == n * size,
    {
        self.sub(offset * size, n * size)
    }

    /// How many elements of `size` bytes fit.
    pub fn holds(&self, size: usize) -> (r: usize)
        requires
            size > 0,
        ensures
            r == self.bytes as int / size as int,
    {
        self.bytes / size
    }

    /// Whether `n` elements of `size` bytes can be written.
    pub fn check_write(&self, n: usize, size: usize) -> (r: Result<(), Error>)
        requires
            size > 0,
        ensures
            comes_to(
                r,
                if n <= self.bytes as int / size as int {
                    Ok(())
                } else {
                    Err(
                        Fault::Buffer(
                            decimal(n as nat) + " elements do not fit a buffer of "@ + decimal(
                                (self.bytes as int / size as int) as nat,
                            ),
                        ),
                    )
                },
            ),
    {
        let room: usize = self.holds(size);
        if n <= room {
            Ok(())
        } else {
            let a = decimal_of(n as u128);
            let b = decimal_of(room as u128);
            Err(Error::Buffer(cat3(a.as_str(), " elements do not fit a buffer of ", b.as_str())))
        }
    }

    /// Where the NPU finds the buffer, in an allocation mapped at `base`.
    pub fn address(&self, base: u64) -> (r: u64)
        requires
            base + self.offset <= u64::MAX,
        ensures
            r == base + self.offset,
    {
        base + self.offset as u64
    }
}

/// A view lies inside what it is taken from, and a view of a view is the
/// view at the summed offset.
pub proof fn views_nest(s: Span, a: int, m: int, b: int, n: int)
    requires
        s.inside(usize::MAX as int),
        0 <= a,
        0 <= m,
        0 <= b,
        0 <= n,
        s.part(a, m) is Ok,
        s.part(a, m)->Ok_0.part(b, n) is Ok,
    ensures
        s.part(a, m)->Ok_0.inside(s.offset + s.bytes),
        s.part(a, m)->Ok_0.part(b, n) == s.part(a + b, n),
{
}

/// The cache lines over `[ptr, ptr+len)`: the first, and how many follow
/// one another from it.
pub open spec fn line_count(ptr: int, len: int) -> int {
    let first = ptr - ptr % 64;
    (ptr + len - first + 63) / 64
}

/// The first cache line over `[ptr, ptr+len)` and the number of lines: those
/// to write back and drop, as the NPU's DMA does not snoop the caches.
pub fn cache_lines(ptr: u64, len: u64) -> (r: (u64, u64))
    requires
        ptr + len + 63 <= u64::MAX,
    ensures
        r.0 == ptr - ptr % 64,
        r.1 == line_count(ptr as int, len as int),
{
    let first: u64 = ptr - ptr % 64;
    (first, (ptr + len - first + 63) / 64)
}

/// The flushed lines cover the range, and the last of them holds some of
/// it or follows the first of an empty range.
pub proof fn lines_cover(ptr: int, len: int)
    requires
        0 <= ptr,
        0 <= len,
    ensures
        ptr - ptr % 64 <= ptr,
        ptr + len <= ptr - ptr % 64 + 64 * line_count(ptr, len),
        ptr - ptr % 64 + 64 * (line_count(ptr, len) - 1) < ptr + len,
{
}

/// Where in a reservation of `2 * size` bytes a mapping of `size` goes to
/// stand at a multiple of `size`, and what to release around it.
#[derive(Debug, Clone, Copy, PartialEq, Eq)]
pub struct Placement {
    pub aligned: u64,
    /// Bytes to release from the reservation's start.
    pub before: u64,
    /// Bytes to release behind the mapping.
    pub after: u64,
}

/// The smallest multiple of `size` from `start` on.
pub open spec fn next_multiple(start: int, size: int) -> int {
    if start % size == 0 {
        start
    } else {
        start - start % size + size
    }
}

pub fn place(start: u64, size: u64) -> (r: Placement)
    requires
        size > 0,
        start + 2 * size <= u64::MAX,
    ensures
        r.aligned == next_multiple(start as int, size as int),
        r.before == r.aligned - start,
        r.after == start + 2 * size - (r.aligned + size),
{
    let over: u64 = start % size;
    let aligned: u64 = if over == 0 {
        start
    } else {
        start + (size - over)
    };
    Placement { aligned, before: aligned - start, after: start + 2 * size - (aligned + size) }
}

/// The mapping lies inside the reservation, at a multiple of its size.
pub proof fn placement_fits(start: int, size: int)
    requires
        0 <= start,
        0 < size,
    ensures
        start <= next_multiple(start, size),
        next_multiple(start, size) + size <= start + 2 * size,
        next_multiple(start, size) % size == 0,
{
    let q = start / size;
    vstd::arithmetic::div_mod::lemma_fundamental_div_mod(start, size);
    vstd::arithmetic::div_mod::lemma_mod_bound(start, size);
    assert(start - start % size == q * size) by (nonlinear_arith)
        requires
            start == size * q + start % size,
    ;
    assert(q * size + size == (q + 1) * size) by (nonlinear_arith);
    vstd::arithmetic::div_mod::lemma_mod_multiples_basic(q + 1, size);
}

} // verus!
