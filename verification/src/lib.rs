//! Models on an AMD XDNA NPU without Python: what is decided and laid out
//! around the device's kernels, verified.
//!
//! Files come as their contents, the device and floating point as closures on
//! bit patterns; the modules say what is read, which values meet and what is
//! launched.
//!
//! | | |
//! |---|---|
//! | the driver | `sys`, `direct`, `axlf`, `xrt`, `wire` |
//! | kernel builds | `compile` |
//! | bundles | `manifest`, `store`, `text`, `paths`, `dict`, `bytes` |
//! | numbers | `bf16`, `ieee`, `arith`, `pack`, `gather` |
//! | work on rows, on images | `rows`, `resample`, `ranking`, `overlay`, `crop` |
//! | face embeddings | `adaface`, `adaface_steps`, `ir_plan`, `plan_tiles`, `tiled` |
//! | crops | `gaic` and the modules named after it, `anchors` |
//! | CLIP | `clip` and the modules named after it, `tokenizer`, `marks` |
//! | SAM 3 | `sam3` and the modules named after it, `residency`, `io_plan`, `timing` |
//!
//! The modules whose names end in `laws` state, over what these compute, what
//! it is for: where every value comes from, and what holds of all results.

pub mod adaface;
pub mod adaface_laws;
pub mod adaface_steps;
pub mod anchor_laws;
pub mod anchors;
pub mod arith;
pub mod axlf;
pub mod bf16;
pub mod bytes;
pub mod clip;
pub mod clip_batch;
pub mod clip_config;
pub mod clip_encode;
pub mod clip_laws;
pub mod clip_npu;
pub mod clip_preprocess;
pub mod compile;
pub mod crop;
pub mod dict;
pub mod direct;
pub mod gaic;
pub mod gaic_align;
pub mod gaic_bundle;
pub mod gaic_features;
pub mod gaic_laws;
pub mod gaic_manifest;
pub mod gaic_preprocess;
pub mod gaic_score;
pub mod gather;
pub mod ieee;
pub mod image_laws;
pub mod io_plan;
pub mod ir_plan;
pub mod manifest;
pub mod marks;
pub mod overlay;
pub mod pack;
pub mod pack_laws;
pub mod paths;
pub mod plan_laws;
pub mod plan_tiles;
pub mod ranking;
pub mod record_laws;
pub mod resample;
pub mod residency;
pub mod rows;
pub mod runtime_laws;
pub mod sam3;
pub mod sam3_bundle;
pub mod sam3_config;
pub mod sam3_flow;
pub mod sam3_forward;
pub mod sam3_instances;
pub mod sam3_laws;
pub mod sam3_layout;
pub mod sam3_machine;
pub mod sam3_manifest;
pub mod sam3_moves;
pub mod sam3_operands;
pub mod sam3_post;
pub mod sam3_run_laws;
pub mod sam3_shapes;
pub mod sam3_stages;
pub mod sam3_step_laws;
pub mod sam3_steps;
pub mod sam3_values;
pub mod store;
pub mod sys;
pub mod text;
pub mod tiled;
pub mod timing;
pub mod tokenizer;
pub mod tokenizer_laws;
pub mod wire;
pub mod wire_laws;
pub mod xrt;
