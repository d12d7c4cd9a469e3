//! Manifests and tensor stores.

use taconite::gaic_bundle::Bundle;
use taconite::manifest::{Error, Manifest};
use taconite::store::{DType, Store};

fn manifest(text: &str) -> Result<Manifest, Error> {
    Manifest::load("/bundle", text, 3)
}

#[test]
fn records_params_xclbins() {
    let m = manifest(
        "version 3\n\
         # a comment\n\
         \n\
         param grid 72\n\
         param splits 1,2,,3\n\
         param name IR 18\n\
         xclbin ctx0 kernels/a.xclbin MLIR_AIE\n\
         gemm g0 ctx=ctx0 M=256 bias=1\n\
         case 0 cases/cats.jpg Two  dogs, playing!\n",
    )
    .unwrap();
    assert_eq!(m.param_as::<usize>("grid").unwrap(), 72);
    assert_eq!(m.list::<usize>("splits").unwrap(), [1, 2, 3]);
    assert_eq!(m.param("name").unwrap(), "IR 18");
    let x = m.xclbin("ctx0").unwrap();
    assert_eq!((x.path.ends_with("kernels/a.xclbin"), x.kernel.as_str()), (true, "MLIR_AIE"));
    assert_eq!(m.records().len(), 2);
    let g = &m.records()[m.tagged("gemm")[0]];
    assert_eq!((g.line, g.field(0).unwrap(), g.str("ctx").unwrap().as_str()), (8, "g0", "ctx0"));
    assert_eq!(g.get::<usize>("M").unwrap(), 256);
    assert!(g.flag("bias").unwrap());
    assert!(g.get::<usize>("N").unwrap_err().message().starts_with("manifest.txt:8: `N=` missing"));
    let c = &m.records()[m.tagged("case")[0]];
    assert_eq!(c.rest(2), "Two  dogs, playing!");
    assert_eq!(c.rest(0), "0 cases/cats.jpg Two  dogs, playing!");
}

#[test]
fn version_is_checked() {
    let e = manifest("version 2\n").unwrap_err().message();
    assert!(e.contains("version 2, this runtime reads version 3"), "{e}");
    let e = manifest("param a 1\n").unwrap_err().message();
    assert!(e.contains("no version record"), "{e}");
    assert!(manifest("version 3\nversion 3\n").is_err());
    assert!(manifest("version 3\nparam a 1\nparam a 2\n").is_err());
    assert!(manifest("version 3\nxclbin k f\n").is_err());
}

#[test]
fn parameters_are_known_by_name() {
    let m = manifest("version 3\nparam a 1\n").unwrap();
    assert!(m.has_param("a") && !m.has_param("b"));
}

#[test]
fn a_plain_store_asks_for_less() {
    let bin = vec![0u8, 0, 128, 63, 0, 0, 0, 64];
    let s = Store::load_plain("a f32 2 0 8\n", bin.clone()).unwrap();
    assert_eq!(s.f32_bits("a").unwrap(), [1.0f32.to_bits(), 2.0f32.to_bits()]);
    let e = Store::load_plain("a f32 1 4 4\n", bin.clone()).err().unwrap();
    assert_eq!(e, "tensors.txt: a is not 8-byte aligned");
    let e = Store::load_plain("a q8 1 0 4\n", bin.clone()).err().unwrap();
    assert_eq!(e, "tensors.txt: dtype q8");
    let e = Store::load_plain("a f32 4 0 16\n", bin).err().unwrap();
    assert_eq!(e, "tensor a runs past the end of tensors.bin");
}

fn write_store(idx: &str, bin: &[u8]) -> Result<Store, Error> {
    Store::load(idx, bin.to_vec())
}

#[test]
fn store() {
    let mut bin = vec![0u8; 72];
    bin[..8].copy_from_slice(&[0, 0, 128, 63, 0, 0, 0, 64]);
    bin[64..68].copy_from_slice(&[0x80, 0x3f, 0x00, 0x40]);
    let s = write_store("a f32 2 0 8\nb bf16 1,2 64 4\n", &bin).unwrap();
    assert_eq!(s.f32_bits("a").unwrap(), [1.0f32.to_bits(), 2.0f32.to_bits()]);
    assert_eq!(s.bf16("b").unwrap(), [0x3f80, 0x4000]);
    assert_eq!(s.shape("b").unwrap(), [1, 2]);
    assert!(s.f32_bits("b").is_err());
    assert!(s.expect("b", DType::Bf16, 2).is_ok());
    assert!(s.expect("b", DType::Bf16, 3).is_err());
    assert!(s.entry("c").is_err());
    assert!(write_store("a f32 2 0 8\nb bf16 1,6 64 12\n", &bin).is_err());
    assert!(write_store("a f32 2 4 8\n", &bin).is_err());
    assert!(write_store("a f32 2 0 6\n", &bin).is_err());
    assert!(write_store("a f32 2 0 8\na f32 2 0 8\n", &bin).is_err());
}

#[test]
fn old_bundle_is_rejected_with_a_hint() {
    let e = Bundle::load("/tmp/gaic-old-bundle", "gaic 1\nf3 conv4_3\n", None, vec![]).err().unwrap().message();
    assert!(e.contains("old-format GAIC bundle") && e.contains("export_gaic"), "{e}");
}
