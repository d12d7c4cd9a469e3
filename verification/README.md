# taconite

Models on an AMD XDNA NPU from exported bundles: face embeddings (AdaFace IR),
aesthetic crops (GAIC), CLIP and text-prompted segmentation (SAM 3), with no
Python at run time.

- `src/` is the library, verified with Verus: the driver's structures and
  decisions, bundle formats, tokenizers, operand layouts, and what every model
  runs in which order. Functions take file contents, not paths. Floating point
  stays with the caller: values are bit patterns, arithmetic is a closure, and
  the contracts say which values meet and where the results go.
- `app/` is the command line: files, images, the device node, threads and
  single-precision kernels.
- `tests/` runs the library with devices that are closures.

What the library takes on trust is a handful of functions of the standard
library (`String::push`, quoting, Unicode letter, number and lower case tables,
`char::from_u32`) and `image::imageops::crop_imm`; each
is stated where it is declared.
