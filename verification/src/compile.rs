//! Building kernels: the command lines of the two compilers and what their
//! output comes to. Peano's `clang++` turns an AIE core kernel into an
//! object, and the native `aiecc` a design's MLIR into the `.xclbin` and the
//! instruction stream a device replays.

use crate::manifest::{join, joined};
use crate::text::{
    cat2, cat3, cat4, cat5, chars_of, decimal, decimal_of, find, first_at, has_prefix, is_space, lines, space,
    split_lines, starts_with, string_of, texts, texts_push,
};
use vstd::prelude::*;

verus! {

/// The AIE core architecture a kernel object is compiled for.
#[derive(Debug, Clone, Copy, PartialEq, Eq)]
pub enum Arch {
    /// NPU1 (Phoenix, Hawk Point).
    Aie2,
    /// NPU2 (Strix, Strix Halo, Krackan).
    Aie2p,
}

/// The architecture a device's name stands for.
pub open spec fn arch_of(device: Seq<char>) -> Option<Arch> {
    if starts_with(device, "npu1"@) {
        Some(Arch::Aie2)
    } else if starts_with(device, "npu2"@) {
        Some(Arch::Aie2p)
    } else {
        None
    }
}

/// The architecture of the first device a design names.
pub open spec fn target_of(mlir: Seq<char>) -> Option<Arch> {
    match first_at(mlir, "aie.device("@) {
        None => None,
        Some(n) => arch_of(mlir.skip(n + "aie.device("@.len() as int)),
    }
}

impl Arch {
    pub open spec fn name(self) -> Seq<char> {
        match self {
            Arch::Aie2 => "aie2"@,
            Arch::Aie2p => "aie2p"@,
        }
    }

    /// The directory of `aie_runtime_lib` holding this arch's headers.
    pub open spec fn headers(self) -> Seq<char> {
        match self {
            Arch::Aie2 => "AIE2"@,
            Arch::Aie2p => "AIE2P"@,
        }
    }

    /// Peano's name for it, as in `--target=aie2p-none-unknown-elf`.
    pub fn as_str(self) -> (r: &'static str)
        ensures
            r@ == self.name(),
    {
        match self {
            Arch::Aie2 => "aie2",
            Arch::Aie2p => "aie2p",
        }
    }

    /// The architecture of the device an MLIR design targets, read from its
    /// `aie.device(npu1…)` / `aie.device(npu2…)` — what the design's kernel
    /// objects have to be compiled for.
    pub fn of_mlir(mlir: &str) -> (r: Option<Arch>)
        ensures
            r == target_of(mlir@),
    {
        match find(mlir, "aie.device(") {
            None => None,
            Some(at) => {
                let c = chars_of(mlir);
                let n: usize = "aie.device(".unicode_len();
                assert(at + n <= c.len());
                let rest = string_of(c.as_slice(), at + n, c.len());
                assert(rest@ =~= mlir@.skip(at + n));
                if has_prefix(rest.as_str(), "npu1") {
                    Some(Arch::Aie2)
                } else if has_prefix(rest.as_str(), "npu2") {
                    Some(Arch::Aie2p)
                } else {
                    None
                }
            },
        }
    }

    fn runtime_lib_dir(self) -> (r: &'static str)
        ensures
            r@ == self.headers(),
    {
        match self {
            Arch::Aie2 => "AIE2",
            Arch::Aie2p => "AIE2P",
        }
    }
}

// ----------------------------------------------------------------------------
// Argument lists
// ----------------------------------------------------------------------------

fn arg(v: &mut Vec<String>, s: &str)
    ensures
        texts(final(v)@) == texts(old(v)@).push(s@),
{
    let owned = s.to_string();
    proof {
        texts_push(v@, owned);
    }
    v.push(owned);
}

fn args(v: &mut Vec<String>, list: &Vec<String>)
    ensures
        texts(final(v)@) == texts(old(v)@) + texts(list@),
{
    let ghost before = texts(v@);
    let mut i: usize = 0;
    while i < list.len()
        invariant
            i <= list.len(),
            texts(v@) == before + texts(list@).take(i as int),
        decreases list.len() - i,
    {
        arg(v, list[i].as_str());
        i = i + 1;
        assert(texts(list@).take(i as int) =~= texts(list@).take(i - 1).push(list@[i - 1]@));
        assert(before + texts(list@).take(i - 1).push(list@[i - 1]@) =~= (before + texts(list@).take(i - 1)).push(
            list@[i - 1]@,
        ));
    }
    assert(texts(list@).take(list@.len() as int) =~= texts(list@));
}

fn no_args() -> (r: Vec<String>)
    ensures
        texts(r@) == Seq::<Seq<char>>::empty(),
{
    let r: Vec<String> = Vec::new();
    assert(texts(r@) =~= Seq::<Seq<char>>::empty());
    r
}

// ----------------------------------------------------------------------------
// The toolchain
// ----------------------------------------------------------------------------

/// Where the compilers are: an mlir-aie install (`bin/aiecc`, `include/`,
/// `aie_runtime_lib/`) and a Peano (`llvm-aie`) install.
#[derive(Debug)]
pub struct Toolchain {
    pub mlir_aie: String,
    pub aiecc: String,
    pub peano: String,
    pub launcher: Vec<String>,
}

pub struct ToolchainView {
    pub mlir_aie: Seq<char>,
    pub aiecc: Seq<char>,
    pub peano: Seq<char>,
    pub launcher: Seq<Seq<char>>,
}

impl View for Toolchain {
    type V = ToolchainView;

    open spec fn view(&self) -> ToolchainView {
        ToolchainView {
            mlir_aie: self.mlir_aie@,
            aiecc: self.aiecc@,
            peano: self.peano@,
            launcher: texts(self.launcher@),
        }
    }
}

/// Where Peano is looked for: the directory the environment names, if it is
/// one; the one inside the mlir-aie install, if it is one; else the wheel
/// beside the install.
pub open spec fn peano_of(mlir_aie: Seq<char>, named: Option<Seq<char>>, inside: bool, parent: Seq<char>) -> Seq<char> {
    match named {
        Some(p) => p,
        None => if inside {
            joined(mlir_aie, "peano"@)
        } else {
            joined(parent, "llvm-aie"@)
        },
    }
}

impl ToolchainView {
    /// The command line that runs `tool`.
    pub open spec fn command(self, tool: Seq<char>) -> Seq<Seq<char>> {
        self.launcher.push(tool)
    }

    /// The command line that compiles `k` from `source` to `output`.
    pub open spec fn kernel_command(
        self,
        k: KernelSourceView,
        source: Seq<char>,
        output: Seq<char>,
        dirs: Seq<Seq<char>>,
    ) -> Seq<Seq<char>> {
        self.command(joined(joined(self.peano, "bin"@), "clang++"@)) + kernel_inputs(source, output, self.mlir_aie)
            + kernel_language() + kernel_target(output, k.arch, self.mlir_aie) + include_flags(dirs)
            + seq!["-Wno-missing-template-arg-list-after-template-kw"@] + k.flags
    }

    /// The command line that compiles the design `d`.
    pub open spec fn design_command(
        self,
        d: DesignView,
        input: Seq<char>,
        xclbin: Seq<char>,
        insts: Seq<char>,
        work_dir: Seq<char>,
    ) -> Seq<Seq<char>> {
        self.command(self.aiecc) + seq![
            input,
            "--peano="@ + self.peano,
            "--get-npu-insts"@,
            "--npu-insts-name="@ + insts,
            "--get-xclbin"@,
            "--xclbin-name="@ + xclbin,
            "--tmpdir="@ + work_dir,
            "-j"@ + decimal(d.jobs),
        ] + d.flags + seq!["--xclbin-kernel-name="@ + d.kernel_name]
    }
}

pub open spec fn kernel_inputs(source: Seq<char>, output: Seq<char>, mlir_aie: Seq<char>) -> Seq<Seq<char>> {
    seq![source, "-c"@, "-o"@, output, "-I"@ + joined(mlir_aie, "include"@)]
}

/// The language and warning flags of a kernel. `aie_api` tests capability
/// macros Peano never defines, so `-Wundef` only works with its headers
/// treated as system headers.
pub open spec fn kernel_language() -> Seq<Seq<char>> {
    seq![
        "-std=c++20"@,
        "-Wno-parentheses"@,
        "-Wno-attributes"@,
        "-Wno-macro-redefined"@,
        "-Wno-empty-body"@,
        "--system-header-prefix=aie_api/"@,
        "-Werror=undef"@,
        "-O2"@,
        "-DNDEBUG"@,
        "-MD"@,
        "-MF"@,
    ]
}

/// The dependency file, the guard that keeps the Vitis-only header out, the
/// target and its headers.
pub open spec fn kernel_target(output: Seq<char>, arch: Arch, mlir_aie: Seq<char>) -> Seq<Seq<char>> {
    seq![
        output + ".d"@,
        "-D__AIE_API_AIE_ADF_HPP__"@,
        "--target="@ + arch.name() + "-none-unknown-elf"@,
        "-ffunction-sections"@,
        "-fdata-sections"@,
        "-fstack-size-section"@,
        "-I"@,
        joined(joined(mlir_aie, "aie_runtime_lib"@), arch.headers()),
    ]
}

/// `-I dir` for each of `dirs`.
pub open spec fn include_flags(dirs: Seq<Seq<char>>) -> Seq<Seq<char>>
    decreases dirs.len(),
{
    if dirs.len() == 0 {
        Seq::empty()
    } else {
        include_flags(dirs.drop_last()).push("-I"@).push(dirs.last())
    }
}

fn language_flags() -> (r: Vec<String>)
    ensures
        texts(r@) == kernel_language(),
{
    let mut r = no_args();
    arg(&mut r, "-std=c++20");
    arg(&mut r, "-Wno-parentheses");
    arg(&mut r, "-Wno-attributes");
    arg(&mut r, "-Wno-macro-redefined");
    arg(&mut r, "-Wno-empty-body");
    arg(&mut r, "--system-header-prefix=aie_api/");
    arg(&mut r, "-Werror=undef");
    arg(&mut r, "-O2");
    arg(&mut r, "-DNDEBUG");
    arg(&mut r, "-MD");
    arg(&mut r, "-MF");
    r
}

fn dirs_flags(dirs: &Vec<String>) -> (r: Vec<String>)
    ensures
        texts(r@) == include_flags(texts(dirs@)),
{
    let mut r = no_args();
    let mut i: usize = 0;
    let ghost all = texts(dirs@);
    while i < dirs.len()
        invariant
            i <= dirs.len(),
            all == texts(dirs@),
            texts(r@) == include_flags(all.take(i as int)),
        decreases dirs.len() - i,
    {
        arg(&mut r, "-I");
        arg(&mut r, dirs[i].as_str());
        i = i + 1;
        assert(all.take(i as int).drop_last() =~= all.take(i - 1));
    }
    assert(all.take(all.len() as int) =~= all);
    r
}

impl Toolchain {
    /// The toolchain of the mlir-aie install at `mlir_aie`. `named` is what
    /// the environment names as Peano's directory, if that is one; `inside`
    /// whether the install has a `peano` directory; `parent` the install's
    /// own directory's parent.
    pub fn new(mlir_aie: &str, named: Option<&str>, inside: bool, parent: &str) -> (r: Toolchain)
        ensures
            r@.mlir_aie == mlir_aie@,
            r@.aiecc == joined(joined(mlir_aie@, "bin"@), "aiecc"@),
            r@.peano == peano_of(
                mlir_aie@,
                match named {
                    Some(p) => Some(p@),
                    None => None,
                },
                inside,
                parent@,
            ),
            r@.launcher == Seq::<Seq<char>>::empty(),
    {
        let bin = join(mlir_aie, "bin");
        let peano = match named {
            Some(p) => p.to_string(),
            None => if inside {
                join(mlir_aie, "peano")
            } else {
                join(parent, "llvm-aie")
            },
        };
        Toolchain { mlir_aie: mlir_aie.to_string(), aiecc: join(bin.as_str(), "aiecc"), peano, launcher: no_args() }
    }

    /// Uses `aiecc` as the aiecc binary: the native one, not the wrapper
    /// script.
    pub fn with_aiecc(self, aiecc: &str) -> (r: Toolchain)
        ensures
            r@ == (ToolchainView { aiecc: aiecc@, ..self@ }),
    {
        Toolchain { mlir_aie: self.mlir_aie, aiecc: aiecc.to_string(), peano: self.peano, launcher: self.launcher }
    }

    /// Uses the Peano install at `peano` (the directory holding
    /// `bin/clang++`).
    pub fn with_peano(self, peano: &str) -> (r: Toolchain)
        ensures
            r@ == (ToolchainView { peano: peano@, ..self@ }),
    {
        Toolchain { mlir_aie: self.mlir_aie, aiecc: self.aiecc, peano: peano.to_string(), launcher: self.launcher }
    }

    /// Runs every tool as `launcher… tool args…`, e.g. through a script that
    /// execs its arguments inside a container.
    pub fn with_launcher(self, launcher: Vec<String>) -> (r: Toolchain)
        ensures
            r@ == (ToolchainView { launcher: texts(launcher@), ..self@ }),
    {
        Toolchain { mlir_aie: self.mlir_aie, aiecc: self.aiecc, peano: self.peano, launcher }
    }

    pub fn mlir_aie(&self) -> (r: &str)
        ensures
            r@ == self@.mlir_aie,
    {
        self.mlir_aie.as_str()
    }

    pub fn aiecc(&self) -> (r: &str)
        ensures
            r@ == self@.aiecc,
    {
        self.aiecc.as_str()
    }

    pub fn peano(&self) -> (r: &str)
        ensures
            r@ == self@.peano,
    {
        self.peano.as_str()
    }

    /// The command line that runs `tool`: the launcher, if there is one, and
    /// the tool.
    pub fn command(&self, tool: &str) -> (r: Vec<String>)
        ensures
            texts(r@) == self@.command(tool@),
            r.len() > 0,
    {
        let mut r = no_args();
        args(&mut r, &self.launcher);
        assert(Seq::<Seq<char>>::empty() + texts(self.launcher@) =~= texts(self.launcher@));
        arg(&mut r, tool);
        assert(texts(r@).len() == r@.len());
        r
    }

    /// The command line that compiles `kernel` (C++, AIE API) to the object
    /// `output`, plus the dependency file `output.d`. `source`, `output` and
    /// `dirs` are the absolute paths of the kernel's.
    pub fn kernel_command(&self, kernel: &KernelSource, source: &str, output: &str, dirs: &Vec<String>) -> (r: Vec<
        String,
    >)
        ensures
            texts(r@) == self@.kernel_command(kernel@, source@, output@, texts(dirs@)),
    {
        let bin = join(self.peano.as_str(), "bin");
        let clang = join(bin.as_str(), "clang++");
        let mut r = self.command(clang.as_str());

        let headers = join(self.mlir_aie.as_str(), "include");
        let headers_flag = cat2("-I", headers.as_str());
        let mut inputs = no_args();
        arg(&mut inputs, source);
        arg(&mut inputs, "-c");
        arg(&mut inputs, "-o");
        arg(&mut inputs, output);
        arg(&mut inputs, headers_flag.as_str());
        args(&mut r, &inputs);
        args(&mut r, &language_flags());

        let dep = cat2(output, ".d");
        let target = cat3("--target=", kernel.arch.as_str(), "-none-unknown-elf");
        let lib = join(self.mlir_aie.as_str(), "aie_runtime_lib");
        let lib_dir = join(lib.as_str(), kernel.arch.runtime_lib_dir());
        let mut machine = no_args();
        arg(&mut machine, dep.as_str());
        arg(&mut machine, "-D__AIE_API_AIE_ADF_HPP__");
        arg(&mut machine, target.as_str());
        arg(&mut machine, "-ffunction-sections");
        arg(&mut machine, "-fdata-sections");
        arg(&mut machine, "-fstack-size-section");
        arg(&mut machine, "-I");
        arg(&mut machine, lib_dir.as_str());
        args(&mut r, &machine);

        args(&mut r, &dirs_flags(dirs));
        let mut warning = no_args();
        arg(&mut warning, "-Wno-missing-template-arg-list-after-template-kw");
        args(&mut r, &warning);
        args(&mut r, &kernel.flags);
        r
    }

    /// The command line that compiles the design's MLIR at `input` to
    /// `xclbin` and `insts` (the instruction stream), in `work_dir`.
    pub fn design_command(&self, design: &Design, input: &str, xclbin: &str, insts: &str, work_dir: &str) -> (r: Vec<
        String,
    >)
        ensures
            texts(r@) == self@.design_command(design@, input@, xclbin@, insts@, work_dir@),
    {
        let mut r = self.command(self.aiecc.as_str());
        let peano = cat2("--peano=", self.peano.as_str());
        let insts_flag = cat2("--npu-insts-name=", insts);
        let xclbin_flag = cat2("--xclbin-name=", xclbin);
        let work_flag = cat2("--tmpdir=", work_dir);
        let jobs = decimal_of(design.jobs as u128);
        let jobs_flag = cat2("-j", jobs.as_str());
        let mut fixed = no_args();
        arg(&mut fixed, input);
        arg(&mut fixed, peano.as_str());
        arg(&mut fixed, "--get-npu-insts");
        arg(&mut fixed, insts_flag.as_str());
        arg(&mut fixed, "--get-xclbin");
        arg(&mut fixed, xclbin_flag.as_str());
        arg(&mut fixed, work_flag.as_str());
        arg(&mut fixed, jobs_flag.as_str());
        args(&mut r, &fixed);
        args(&mut r, &design.flags);
        let name = cat2("--xclbin-kernel-name=", design.kernel_name.as_str());
        let mut named = no_args();
        arg(&mut named, name.as_str());
        args(&mut r, &named);
        r
    }
}

// ----------------------------------------------------------------------------
// What to build
// ----------------------------------------------------------------------------

/// A kernel source.
#[derive(Debug)]
pub struct KernelSource {
    pub source: String,
    pub arch: Arch,
    pub include_dirs: Vec<String>,
    pub flags: Vec<String>,
}

pub struct KernelSourceView {
    pub source: Seq<char>,
    pub arch: Arch,
    pub include_dirs: Seq<Seq<char>>,
    pub flags: Seq<Seq<char>>,
}

impl View for KernelSource {
    type V = KernelSourceView;

    open spec fn view(&self) -> KernelSourceView {
        KernelSourceView {
            source: self.source@,
            arch: self.arch,
            include_dirs: texts(self.include_dirs@),
            flags: texts(self.flags@),
        }
    }
}

impl KernelSource {
    pub fn new(source: &str, arch: Arch) -> (r: KernelSource)
        ensures
            r@ == (KernelSourceView { source: source@, arch, include_dirs: Seq::empty(), flags: Seq::empty() }),
    {
        KernelSource { source: source.to_string(), arch, include_dirs: no_args(), flags: no_args() }
    }

    /// Adds `-I dir`.
    pub fn include_dir(self, dir: &str) -> (r: KernelSource)
        ensures
            r@ == (KernelSourceView { include_dirs: self@.include_dirs.push(dir@), ..self@ }),
    {
        let mut include_dirs = self.include_dirs;
        arg(&mut include_dirs, dir);
        KernelSource { source: self.source, arch: self.arch, include_dirs, flags: self.flags }
    }

    /// Adds `-Dname=value` — how operators size a kernel (`-DDIM_M=64`).
    pub fn define(self, name: &str, value: &str) -> (r: KernelSource)
        ensures
            r@ == (KernelSourceView { flags: self@.flags.push("-D"@ + name@ + "="@ + value@), ..self@ }),
    {
        let f = cat4("-D", name, "=", value);
        self.flag(f.as_str())
    }

    /// Adds a compiler flag as is (an operator's extra flags).
    pub fn flag(self, flag: &str) -> (r: KernelSource)
        ensures
            r@ == (KernelSourceView { flags: self@.flags.push(flag@), ..self@ }),
    {
        let mut flags = self.flags;
        arg(&mut flags, flag);
        KernelSource { source: self.source, arch: self.arch, include_dirs: self.include_dirs, flags }
    }
}

/// A design: its MLIR, and what to build it with.
#[derive(Debug)]
pub struct Design {
    pub mlir: String,
    pub work_dir: String,
    pub link: Vec<String>,
    pub kernel_name: String,
    pub jobs: usize,
    pub flags: Vec<String>,
}

pub struct DesignView {
    pub mlir: Seq<char>,
    pub work_dir: Seq<char>,
    pub link: Seq<Seq<char>>,
    pub kernel_name: Seq<char>,
    pub jobs: nat,
    pub flags: Seq<Seq<char>>,
}

impl View for Design {
    type V = DesignView;

    open spec fn view(&self) -> DesignView {
        DesignView {
            mlir: self.mlir@,
            work_dir: self.work_dir@,
            link: texts(self.link@),
            kernel_name: self.kernel_name@,
            jobs: self.jobs as nat,
            flags: texts(self.flags@),
        }
    }
}

impl Design {
    /// The design in the MLIR file `mlir`, built in `work_dir` (one per
    /// design, as aiecc's intermediates have fixed names).
    pub fn new(mlir: &str, work_dir: &str) -> (r: Design)
        ensures
            r@ == (DesignView {
                mlir: mlir@,
                work_dir: work_dir@,
                link: Seq::empty(),
                kernel_name: "MLIR_AIE"@,
                jobs: 1,
                flags: Seq::empty(),
            }),
    {
        Design {
            mlir: mlir.to_string(),
            work_dir: work_dir.to_string(),
            link: no_args(),
            kernel_name: "MLIR_AIE".to_string(),
            jobs: 1,
            flags: no_args(),
        }
    }

    /// Links the kernel object `obj` (a core function's `link_with`).
    pub fn link(self, obj: &str) -> (r: Design)
        ensures
            r@ == (DesignView { link: self@.link.push(obj@), ..self@ }),
    {
        let mut link = self.link;
        arg(&mut link, obj);
        Design {
            mlir: self.mlir,
            work_dir: self.work_dir,
            link,
            kernel_name: self.kernel_name,
            jobs: self.jobs,
            flags: self.flags,
        }
    }

    /// The kernel's name inside the xclbin.
    pub fn kernel_name(self, name: &str) -> (r: Design)
        ensures
            r@ == (DesignView { kernel_name: name@, ..self@ }),
    {
        Design {
            mlir: self.mlir,
            work_dir: self.work_dir,
            link: self.link,
            kernel_name: name.to_string(),
            jobs: self.jobs,
            flags: self.flags,
        }
    }

    /// aiecc's parallelism, at least one job.
    pub fn jobs(self, jobs: usize) -> (r: Design)
        ensures
            r@ == (DesignView {
                jobs: if jobs == 0 {
                    1
                } else {
                    jobs as nat
                },
                ..self@
            }),
    {
        Design {
            mlir: self.mlir,
            work_dir: self.work_dir,
            link: self.link,
            kernel_name: self.kernel_name,
            jobs: if jobs == 0 {
                1
            } else {
                jobs
            },
            flags: self.flags,
        }
    }

    /// Adds an aiecc flag as is.
    pub fn flag(self, flag: &str) -> (r: Design)
        ensures
            r@ == (DesignView { flags: self@.flags.push(flag@), ..self@ }),
    {
        let mut flags = self.flags;
        arg(&mut flags, flag);
        Design {
            mlir: self.mlir,
            work_dir: self.work_dir,
            link: self.link,
            kernel_name: self.kernel_name,
            jobs: self.jobs,
            flags,
        }
    }
}

// ----------------------------------------------------------------------------
// What a tool says
// ----------------------------------------------------------------------------

/// What is left of a line after its last carriage return.
pub open spec fn after_returns(l: Seq<char>) -> Seq<char>
    decreases l.len(),
{
    if l.len() == 0 || l.last() == '\r' {
        Seq::empty()
    } else {
        after_returns(l.drop_last()).push(l.last())
    }
}

/// The line without the white space at its end.
pub open spec fn trimmed_end(l: Seq<char>) -> Seq<char>
    decreases l.len(),
{
    if l.len() > 0 && is_space(l.last()) {
        trimmed_end(l.drop_last())
    } else {
        l
    }
}

/// The lines with a line feed between them.
pub open spec fn joined_lines(l: Seq<Seq<char>>) -> Seq<char>
    decreases l.len(),
{
    if l.len() == 0 {
        Seq::empty()
    } else if l.len() == 1 {
        l[0]
    } else {
        joined_lines(l.drop_last()) + "\n"@ + l.last()
    }
}

/// How many lines of a tool's output an error carries.
pub const TAIL_LINES: usize = 40;

pub open spec fn last_lines(l: Seq<Seq<char>>) -> Seq<Seq<char>> {
    if l.len() > TAIL_LINES {
        l.skip(l.len() - TAIL_LINES)
    } else {
        l
    }
}

/// The end of a tool's output, where the error is, and of a line only what
/// is left after its progress counter's carriage returns.
pub open spec fn tail_of(s: Seq<char>) -> Seq<char> {
    joined_lines(last_lines(lines(s).map_values(|l: Seq<char>| trimmed_end(after_returns(l)))))
}

proof fn after_returns_is(l: Seq<char>, k: int)
    requires
        0 <= k <= l.len(),
        k > 0 ==> l[k - 1] == '\r',
        forall|i: int| k <= i < l.len() ==> l[i] != '\r',
    ensures
        after_returns(l) == l.skip(k),
    decreases l.len(),
{
    if l.len() == k {
        assert(l.skip(k) =~= Seq::empty());
    } else {
        let d = l.drop_last();
        assert(forall|i: int| k <= i < d.len() ==> d[i] == l[i]);
        after_returns_is(d, k);
        assert(d.skip(k).push(l.last()) =~= l.skip(k));
    }
}

fn cleaned(l: &str) -> (r: String)
    ensures
        r@ == trimmed_end(after_returns(l@)),
{
    let c = chars_of(l);
    let mut from: usize = c.len();
    while from > 0 && c[from - 1] != '\r'
        invariant
            from <= c.len(),
            forall|i: int| from <= i < c.len() ==> c@[i] != '\r',
        decreases from,
    {
        from = from - 1;
    }
    proof {
        after_returns_is(l@, from as int);
    }
    let mut to: usize = c.len();
    assert(l@.skip(from as int) =~= l@.subrange(from as int, to as int));
    while to > from && space(c[to - 1])
        invariant
            from <= to <= c.len(),
            c@ == l@,
            trimmed_end(l@.skip(from as int)) == trimmed_end(l@.subrange(from as int, to as int)),
        decreases to,
    {
        to = to - 1;
        assert(l@.subrange(from as int, to + 1).drop_last() =~= l@.subrange(from as int, to as int));
    }
    string_of(c.as_slice(), from, to)
}

/// The end of a tool's output.
pub fn tail(output: &str) -> (r: String)
    ensures
        r@ == tail_of(output@),
{
    let all = split_lines(output);
    let n: usize = all.len();
    let from: usize = if n > TAIL_LINES {
        n - TAIL_LINES
    } else {
        0
    };
    let ghost clean = lines(output@).map_values(|l: Seq<char>| trimmed_end(after_returns(l)));
    let ghost kept = last_lines(clean);
    assert(kept =~= clean.skip(from as int));
    let mut r = String::new();
    assert(r@ =~= joined_lines(kept.take(0)));
    let mut i: usize = from;
    while i < n
        invariant
            from <= i <= n == all.len(),
            texts(all@) == lines(output@),
            clean == lines(output@).map_values(|l: Seq<char>| trimmed_end(after_returns(l))),
            kept == clean.skip(from as int),
            r@ == joined_lines(kept.take(i - from)),
        decreases n - i,
    {
        let l = cleaned(all[i].as_str());
        assert(texts(all@)[i as int] == all@[i as int]@);
        assert(l@ == kept[i - from]);
        let ghost next = kept.take(i - from + 1);
        assert(next.drop_last() =~= kept.take(i - from));
        if i == from {
            assert(next[0] == l@);
            r = l;
        } else {
            r = cat3(r.as_str(), "\n", l.as_str());
        }
        i = i + 1;
    }
    assert(kept.take(kept.len() as int) =~= kept);
    r
}

/// What a failed tool is reported with.
pub open spec fn failure_text(tool: Seq<char>, status: Seq<char>, input: Seq<char>, err: Seq<char>, out: Seq<char>) -> Seq<
    char,
> {
    tool + " failed ("@ + status + ") on "@ + input + ":\n"@ + tail_of(err) + "\n"@ + tail_of(out)
}

/// The error of `tool`, which ended with `status` on `input`, from what it
/// wrote to its two streams.
pub fn failure(tool: &str, status: &str, input: &str, err: &str, out: &str) -> (r: String)
    ensures
        r@ == failure_text(tool@, status@, input@, err@, out@),
{
    let a = tail(err);
    let b = tail(out);
    let head = cat5(tool, " failed (", status, ") on ", input);
    cat5(head.as_str(), ":\n", a.as_str(), "\n", b.as_str())
}

/// The error of a kernel without its source.
pub fn missing_source(source: &str) -> (r: String)
    ensures
        r@ == "kernel source "@ + source@ + " does not exist"@,
{
    cat3("kernel source ", source, " does not exist")
}

/// The error of a tool that ended well without its output.
pub fn missing_output(tool: &str, output: &str) -> (r: String)
    ensures
        r@ == tool@ + " reported success but did not write "@ + output@,
{
    cat3(tool, " reported success but did not write ", output)
}

/// The launcher comes before the tool, and without one the tool is run
/// itself.
pub proof fn launcher_prefixes_the_tool(t: ToolchainView, tool: Seq<char>)
    ensures
        t.command(tool).last() == tool,
        t.command(tool).drop_last() == t.launcher,
        t.launcher.len() == 0 ==> t.command(tool)[0] == tool,
{
    assert(t.command(tool).drop_last() =~= t.launcher);
}

} // verus!
