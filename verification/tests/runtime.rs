//! The device interface and the toolchain.

use taconite::axlf;
use taconite::bf16::{bf16_to_f32, f32_to_bf16};
use taconite::compile::{self, Arch, Design, KernelSource, Toolchain};
use taconite::direct::{self, packet, PowerMode, Signal, Span};
use taconite::sys;
use taconite::wire::{decode, encode, Plain};
use taconite::xrt;

#[test]
fn arch_follows_the_mlir_device() {
    assert_eq!(Arch::of_mlir("module {\n  aie.device(npu2) {"), Some(Arch::Aie2p));
    assert_eq!(Arch::of_mlir("aie.device(npu2_4col) {"), Some(Arch::Aie2p));
    assert_eq!(Arch::of_mlir("aie.device(npu1_1col) {"), Some(Arch::Aie2));
    assert_eq!(Arch::of_mlir("aie.device(xcve2802) {"), None);
    assert_eq!(Arch::of_mlir("module {}"), None);
}

#[test]
fn a_launcher_prefixes_the_tool() {
    let tc = Toolchain::new("/opt/mlir_aie", None, false, "/opt")
        .with_launcher(vec!["ctr".to_string(), "--quiet".to_string()]);
    let cmd = tc.command("/opt/mlir_aie/bin/aiecc");
    assert_eq!(cmd[0], "ctr");
    assert_eq!(cmd[1..], ["--quiet", "/opt/mlir_aie/bin/aiecc"]);
}

#[test]
fn a_toolchain_can_be_put_together() {
    let tc = Toolchain::new("/opt/mlir_aie", None, false, "/opt").with_aiecc("/bin/aiecc").with_peano("/p");
    assert_eq!((tc.mlir_aie(), tc.aiecc(), tc.peano()), ("/opt/mlir_aie", "/bin/aiecc", "/p"));
    assert_eq!(tc.command("x"), ["x"]);
}

#[test]
fn a_missing_source_is_named() {
    let m = compile::missing_source("/nonexistent/k.cc");
    assert!(m.contains("does not exist"), "{m}");
    assert!(m.contains("/nonexistent/k.cc"), "{m}");
}

#[test]
fn kernels_and_designs_are_told_what_they_need() {
    let tc = Toolchain::new("/opt/mlir_aie", Some("/opt/peano"), false, "/opt");
    assert_eq!(tc.mlir_aie(), "/opt/mlir_aie");
    assert_eq!(tc.peano(), "/opt/peano");
    let k = KernelSource::new("k.cc", Arch::Aie2p).include_dir("inc").define("N", "4").flag("-g");
    let cmd = tc.kernel_command(&k, "/src/k.cc", "/out/k.o", &vec!["/out/inc".to_string()]);
    assert_eq!(cmd[0], "/opt/peano/bin/clang++");
    assert!(cmd.iter().any(|a| a == "-DN=4"), "{cmd:?}");
    assert!(cmd.iter().any(|a| a == "-g"), "{cmd:?}");
    assert!(cmd.windows(2).any(|w| w[0] == "-o" && w[1] == "/out/k.o"), "{cmd:?}");
    let d = Design::new("d.mlir", "work").kernel_name("MLIR_AIE").jobs(3).flag("--x");
    let cmd = tc.design_command(&d, "/w/d.mlir", "/w/d.xclbin", "/w/d.bin", "/w");
    assert_eq!(cmd[0], tc.aiecc());
    assert!(cmd.iter().any(|a| a == "--x"), "{cmd:?}");
    assert_eq!(cmd[1], "/w/d.mlir");
    assert!(cmd.iter().any(|a| a == "-j3"), "{cmd:?}");
    assert_eq!(cmd.last().unwrap(), "--xclbin-kernel-name=MLIR_AIE");
}

#[test]
fn failures_end_with_the_tool_s_last_words() {
    let m = compile::failure("clang++", "exit status: 1", "k.cc", "error: no", "");
    assert!(m.contains("clang++") && m.contains("k.cc") && m.contains("error: no"), "{m}");
    let m = compile::missing_output("aiecc", "/w/d.xclbin");
    assert!(m.contains("/w/d.xclbin"), "{m}");
}

#[test]
fn the_packet_is_what_xrt_sends() {
    let p = packet(0x0402_8000, 0xcb0, &[0x7b7d_41cd_f000u64, 0x7b7d_419b_f000, 0x7b7d_4169_f000]);
    assert_eq!(
        p,
        [
            0x3001_0001,
            1,
            3,
            0,
            0x0402_8000,
            0,
            0xcb0,
            0x41cd_f000,
            0x7b7d,
            0x419b_f000,
            0x7b7d,
            0x4169_f000,
            0x7b7d,
            0,
            0,
            0,
            0
        ]
    );
}

#[test]
fn ioctl_numbers_match_the_uapi_header() {
    assert_eq!(sys::drm_iowr(sys::EXEC_CMD, <sys::ExecCmd as Plain>::size()), 0xc038_6446);
    assert_eq!(sys::drm_iowr(sys::SYNCOBJ_TIMELINE_WAIT, <sys::SyncobjTimelineWait as Plain>::size()), 0xc030_64ca);
    assert_eq!(<sys::AieMetadata as Plain>::size(), 64);
    assert_eq!(<sys::ConfigCu as Plain>::size(), 16);
    assert_eq!(<sys::HwctxEntry as Plain>::size(), 144);
}

#[test]
fn requests_carry_their_record_s_size() {
    assert_eq!(sys::request_of::<sys::ExecCmd>(sys::EXEC_CMD), 0xc038_6446);
    assert_ne!(sys::request_of::<sys::GetInfo>(sys::EXEC_CMD), 0xc038_6446);
}

#[test]
fn a_non_xclbin_is_rejected() {
    assert!(axlf::partition(b"not an xclbin at all").is_err());
}

#[test]
fn lib_bf16_round_trips_and_rounds_to_nearest_even() {
    let there = |x: f32| f32::from_bits(bf16_to_f32(f32_to_bf16(x.to_bits())));
    for &x in &[0.0f32, 1.0, -2.5, std::f32::consts::PI, 1e-3, 65504.0, -1e30] {
        let back = there(x);
        assert!((back - x).abs() <= x.abs() * (1.0 / 128.0) + 1e-30, "{x} -> {back}");
    }
    assert_eq!(there(1.0 + 1.0 / 256.0), 1.0);
    assert_eq!(there(1.0 + 3.0 / 256.0), 1.015625);
    assert!(there(f32::NAN).is_nan());
}

#[test]
fn records_come_back_as_they_were_laid_out() {
    let e = direct::exec_cmd(7, 9, 0x1234_5678_9abc_def0, 3);
    let b = encode(&e);
    assert_eq!(b.len(), 56);
    assert_eq!(decode::<sys::ExecCmd>(&b), Some(e));
    assert!(decode::<sys::ExecCmd>(&b[..55]).is_none());
    let w = direct::fence_wait(0x10, 0x20, 5);
    let b = encode(&w);
    assert_eq!(decode::<sys::SyncobjTimelineWait>(&b), Some(w));
    assert_ne!(decode::<sys::SyncobjTimelineWait>(&b), Some(direct::fence_wait(0x10, 0x21, 5)));
}

#[test]
fn power_modes_are_numbered() {
    for v in 0..=4u8 {
        let m = PowerMode::from_raw(v).unwrap();
        assert_eq!(m.raw(), v);
    }
    assert!(PowerMode::from_raw(5).is_none());
    assert!(PowerMode::from_answer(2).is_ok());
    assert!(matches!(PowerMode::from_answer(9), Err(xrt::Error::Device(_))));
}

#[test]
fn contexts_are_told_apart_by_file_and_kernel() {
    assert_ne!(direct::context_key("a.xclbin", None), direct::context_key("a.xclbin", Some("k")));
    assert_ne!(direct::context_key("a.xclbin", Some("k")), direct::context_key("b.xclbin", Some("k")));
    assert_eq!(direct::context_key("a.xclbin", Some("k")), direct::context_key("a.xclbin", Some("k")));
}

#[test]
fn listed_contexts_are_those_the_driver_filled() {
    let mut e = sys::HwctxEntry::default();
    e.context_id = 4;
    e.pid = -3;
    e.command_submissions = 8;
    e.state = 1;
    let list = direct::contexts(&[e, sys::HwctxEntry::default()], 1);
    assert_eq!(list.len(), 1);
    assert_eq!((list[0].context_id, list[0].pid, list[0].submissions), (4, -3, 8));
}

#[test]
fn a_kernel_takes_only_so_many_buffers() {
    assert!(direct::check_args(direct::MAX_ARGS).is_ok());
    assert!(matches!(direct::check_args(direct::MAX_ARGS + 1), Err(xrt::Error::Run(_))));
}

#[test]
fn every_buffer_is_pinned_once() {
    assert_eq!(direct::pinned(9, &[4, 4, 5, 9]), [9, 4, 5]);
    assert_eq!(direct::pinned(1, &[]), [1]);
}

#[test]
fn a_run_ends_well_only_when_it_completed() {
    let done = direct::finish(&Signal::Done, 4);
    assert!(done.result.is_ok() && done.reuse);
    let died = direct::finish(&Signal::Done, 5);
    assert!(matches!(died.result, Err(xrt::Error::Run(_))) && died.reuse);
    let late = direct::finish(&Signal::TimedOut, 1);
    assert!(late.result.is_err() && !late.reuse);
    let lost = direct::finish(&Signal::Failed("no".to_string()), 4);
    assert!(lost.result.is_err() && !lost.reuse);
}

#[test]
fn views_stay_inside_their_buffer() {
    let b = Span::whole(100);
    let v = b.sub(10, 50).unwrap();
    assert_eq!((v.offset, v.len_bytes()), (10, 50));
    let w = v.sub_of(2, 5, 10).unwrap();
    assert_eq!((w.offset, w.len_bytes()), (20, 20));
    assert_eq!(w.holds(4), 5);
    assert!(matches!(v.sub(41, 10), Err(xrt::Error::Buffer(_))));
    assert!(matches!(v.sub_of(2, usize::MAX, 1), Err(xrt::Error::Buffer(_))));
    assert!(v.check_write(25, 2).is_ok());
    assert!(matches!(v.check_write(26, 2), Err(xrt::Error::Buffer(_))));
    assert_eq!(w.address(1000), 1020);
}

#[test]
fn cache_lines_cover_what_was_written() {
    assert_eq!(direct::cache_lines(70, 10), (64, 1));
    assert_eq!(direct::cache_lines(128, 64), (128, 1));
    assert_eq!(direct::cache_lines(127, 2), (64, 2));
}

#[test]
fn mappings_are_aligned_inside_their_reservation() {
    let p = direct::place(100, 64);
    assert_eq!(p.aligned % 64, 0);
    assert_eq!(p.aligned, 128);
    assert_eq!(p.before, 28);
    assert_eq!(p.before + 64 + p.after, 128);
}

#[test]
fn queries_and_contexts_are_filled_in() {
    let q = direct::query(sys::QUERY_AIE_METADATA, 64, 0xabc);
    assert_eq!((q.param, q.buffer_size, q.buffer), (sys::QUERY_AIE_METADATA, 64, 0xabc));
    let c = direct::create_hwctx(4, 4, 0x77);
    assert_eq!((c.qos_p, c.num_tiles), (0x77, 16));
    let cu = direct::config_cu(5);
    assert_eq!(encode(&cu).len(), 16);
    let g = direct::qos(3_000_000_000);
    assert_eq!(g.gops, direct::gops(3_000_000_000));
    assert_eq!(direct::device_path(0), "/dev/accel/accel0");
}

#[test]
fn paths_and_names_hold_no_nul() {
    assert!(xrt::check_path("/a/b").is_ok());
    assert!(matches!(xrt::check_path("a\0b"), Err(xrt::Error::Path(_))));
    assert!(xrt::check_name("MLIR_AIE").is_ok());
    assert!(xrt::check_name("a\0").is_err());
}

fn put(v: &mut Vec<u8>, at: usize, b: &[u8]) {
    v[at..at + b.len()].copy_from_slice(b);
}

#[test]
fn every_error_says_what_it_is() {
    let all = [
        xrt::Error::Device("x".to_string()).message(),
        xrt::Error::Kernel("x".to_string()).message(),
        xrt::Error::Buffer("x".to_string()).message(),
        xrt::Error::Run("x".to_string()).message(),
        xrt::Error::Path("x".to_string()).message(),
        xrt::Error::Compile("x".to_string()).message(),
    ];
    for (i, a) in all.iter().enumerate() {
        assert!(a.contains('x'), "{a}");
        for b in &all[i + 1..] {
            assert_ne!(a, b);
        }
    }
}

#[test]
fn a_truncated_xclbin_is_rejected() {
    let mut x = vec![0u8; 600];
    put(&mut x, 0, b"xclbin2\0");
    put(&mut x, 0x1c4, &u32::MAX.to_le_bytes());
    assert!(axlf::partition(&x).is_err());
    assert!(axlf::partition(&x[..40]).is_err());
}
