//! Run-time and memory benchmarks: every benchmark program is built with
//! every compiler configuration, timed with `hyperfine`, and measured with
//! `/usr/bin/time -v`. This module holds what those steps compute: the
//! tables of configurations and benchmarks, the compiler and executable
//! paths, the command lines, the reading of tool output, and the CSV rows.
use vstd::prelude::*;
use vstd::string::StrSliceExecFns;
use vstd::string::StringExecFns;

use crate::pattern::{capture_group, regex_capture};
use crate::roc_configuration::{specialises_drops, uses_perceus, RocConfiguration};
use crate::text::{
    concat3, div_toward_zero, i32_div, i32_to_decimal, join_path, parse_i32, remove_slashes,
    option_text, parent_path, signed_decimal, spec_join_path, spec_parent, spec_parse_i32,
    strip_slashes, texts,
};

verus! {

/// The number of compiler configurations that are compared.
pub const CONFIGURATION_COUNT: usize = 6;

/// The number of benchmark programs.
pub const BENCHMARK_COUNT: usize = 5;

/// Which compiler a configuration uses.
#[derive(Debug, Clone, Copy, PartialEq, Eq, Structural)]
pub enum ConfigurationVariant {
    Roc(RocConfiguration),
    Koka,
    Haskell,
}

/// A compiler configuration: its display name and its compiler.
#[derive(Clone, Copy)]
pub struct Configuration {
    pub name: &'static str,
    pub variant: ConfigurationVariant,
}

/// A benchmark program, with its source file for each language.
#[derive(Clone, Copy)]
pub struct Benchmark {
    pub name: &'static str,
    pub roc_path: &'static str,
    pub koka_path: &'static str,
    pub haskell_path: &'static str,
}

/// The name of configuration `ci`.
pub open spec fn configuration_name(ci: int) -> Seq<char> {
    if ci == 0 {
        "Beans"@
    } else if ci == 1 {
        "Beans Specialized"@
    } else if ci == 2 {
        "Perceus"@
    } else if ci == 3 {
        "Perceus Specialized"@
    } else if ci == 4 {
        "Koka"@
    } else {
        "Haskell"@
    }
}

/// The compiler of configuration `ci`.
pub open spec fn configuration_variant(ci: int) -> ConfigurationVariant {
    if ci == 0 {
        ConfigurationVariant::Roc(RocConfiguration::Beans)
    } else if ci == 1 {
        ConfigurationVariant::Roc(RocConfiguration::BeansSpecialisation)
    } else if ci == 2 {
        ConfigurationVariant::Roc(RocConfiguration::Perceus)
    } else if ci == 3 {
        ConfigurationVariant::Roc(RocConfiguration::PerceusSpecialisation)
    } else if ci == 4 {
        ConfigurationVariant::Koka
    } else {
        ConfigurationVariant::Haskell
    }
}

/// The name of benchmark `bi`.
pub open spec fn benchmark_name(bi: int) -> Seq<char> {
    if bi == 0 {
        "Deriv"@
    } else if bi == 1 {
        "NQueens"@
    } else if bi == 2 {
        "CFold"@
    } else if bi == 3 {
        "RBTree"@
    } else {
        "RBTreeCk"@
    }
}

/// The Roc source of benchmark `bi`, relative to the benchmarks directory.
pub open spec fn benchmark_roc_path(bi: int) -> Seq<char> {
    if bi == 0 {
        "roc/Deriv.roc"@
    } else if bi == 1 {
        "roc/NQueens.roc"@
    } else if bi == 2 {
        "roc/CFold.roc"@
    } else if bi == 3 {
        "roc/RBTree.roc"@
    } else {
        "roc/RBTreeCk.roc"@
    }
}

/// The Koka source of benchmark `bi`, relative to the benchmarks directory.
pub open spec fn benchmark_koka_path(bi: int) -> Seq<char> {
    if bi == 0 {
        "koka/deriv.kk"@
    } else if bi == 1 {
        "koka/nqueens.kk"@
    } else if bi == 2 {
        "koka/cfold.kk"@
    } else if bi == 3 {
        "koka/rbtree.kk"@
    } else {
        "koka/rbtree-ck.kk"@
    }
}

/// The Haskell source of benchmark `bi`, relative to the benchmarks
/// directory.
pub open spec fn benchmark_haskell_path(bi: int) -> Seq<char> {
    if bi == 0 {
        "haskell/deriv.hs"@
    } else if bi == 1 {
        "haskell/nqueens.hs"@
    } else if bi == 2 {
        "haskell/cfold.hs"@
    } else if bi == 3 {
        "haskell/rbtree.hs"@
    } else {
        "haskell/rbtree-ck.hs"@
    }
}

/// Configuration `ci` of the comparison.
pub fn configuration(ci: usize) -> (c: Configuration)
    requires
        ci < CONFIGURATION_COUNT,
    ensures
        c.name@ == configuration_name(ci as int),
        c.variant == configuration_variant(ci as int),
{
    if ci == 0 {
        Configuration { name: "Beans", variant: ConfigurationVariant::Roc(RocConfiguration::Beans) }
    } else if ci == 1 {
        Configuration {
            name: "Beans Specialized",
            variant: ConfigurationVariant::Roc(RocConfiguration::BeansSpecialisation),
        }
    } else if ci == 2 {
        Configuration {
            name: "Perceus",
            variant: ConfigurationVariant::Roc(RocConfiguration::Perceus),
        }
    } else if ci == 3 {
        Configuration {
            name: "Perceus Specialized",
            variant: ConfigurationVariant::Roc(RocConfiguration::PerceusSpecialisation),
        }
    } else if ci == 4 {
        Configuration { name: "Koka", variant: ConfigurationVariant::Koka }
    } else {
        Configuration { name: "Haskell", variant: ConfigurationVariant::Haskell }
    }
}

/// Benchmark program `bi`.
pub fn benchmark(bi: usize) -> (b: Benchmark)
    requires
        bi < BENCHMARK_COUNT,
    ensures
        b.name@ == benchmark_name(bi as int),
        b.roc_path@ == benchmark_roc_path(bi as int),
        b.koka_path@ == benchmark_koka_path(bi as int),
        b.haskell_path@ == benchmark_haskell_path(bi as int),
{
    if bi == 0 {
        Benchmark {
            name: "Deriv",
            roc_path: "roc/Deriv.roc",
            koka_path: "koka/deriv.kk",
            haskell_path: "haskell/deriv.hs",
        }
    } else if bi == 1 {
        Benchmark {
            name: "NQueens",
            roc_path: "roc/NQueens.roc",
            koka_path: "koka/nqueens.kk",
            haskell_path: "haskell/nqueens.hs",
        }
    } else if bi == 2 {
        Benchmark {
            name: "CFold",
            roc_path: "roc/CFold.roc",
            koka_path: "koka/cfold.kk",
            haskell_path: "haskell/cfold.hs",
        }
    } else if bi == 3 {
        Benchmark {
            name: "RBTree",
            roc_path: "roc/RBTree.roc",
            koka_path: "koka/rbtree.kk",
            haskell_path: "haskell/rbtree.hs",
        }
    } else {
        Benchmark {
            name: "RBTreeCk",
            roc_path: "roc/RBTreeCk.roc",
            koka_path: "koka/rbtree-ck.kk",
            haskell_path: "haskell/rbtree-ck.hs",
        }
    }
}

// ---------------------------------------------------------------------------
// Compiler and executable paths
// ---------------------------------------------------------------------------

/// The compiler that configuration `ci` builds with: the `roc` binary of its
/// own build directory under `roc_binaries_path`, or `koka`, or `ghc`.
pub open spec fn compiler_path(roc_binaries_path: Seq<char>, ci: int) -> Seq<char> {
    match configuration_variant(ci) {
        ConfigurationVariant::Roc(_) => spec_join_path(
            spec_join_path(roc_binaries_path, configuration_name(ci)),
            "release/roc"@,
        ),
        ConfigurationVariant::Koka => "koka"@,
        ConfigurationVariant::Haskell => "ghc"@,
    }
}

/// The name of the run of benchmark `bi` under configuration `ci`:
/// both names without slashes, separated by a space.
pub open spec fn run_name(ci: int, bi: int) -> Seq<char> {
    remove_slashes(configuration_name(ci)) + " "@ + remove_slashes(benchmark_name(bi))
}

/// Where the executable of benchmark `bi` built by configuration `ci` goes.
pub open spec fn executable_path(binaries_path: Seq<char>, ci: int, bi: int) -> Seq<char> {
    spec_join_path(binaries_path, run_name(ci, bi))
}

/// `table` holds one row per configuration and one entry per benchmark.
pub open spec fn is_path_table(table: Seq<Vec<String>>) -> bool {
    &&& table.len() == CONFIGURATION_COUNT
    &&& forall|ci: int| 0 <= ci < CONFIGURATION_COUNT ==> #[trigger] table[ci]@.len()
        == BENCHMARK_COUNT
}

/// The name of the run of benchmark `bi` under configuration `ci`.
pub fn benchmark_run_name(ci: usize, bi: usize) -> (name: String)
    requires
        ci < CONFIGURATION_COUNT,
        bi < BENCHMARK_COUNT,
    ensures
        name@ == run_name(ci as int, bi as int),
{
    let configuration_part = strip_slashes(configuration(ci).name);
    let benchmark_part = strip_slashes(benchmark(bi).name);
    concat3(configuration_part.as_str(), " ", benchmark_part.as_str())
}

/// The compiler of every configuration. The Roc compilers are expected in
/// a build directory per configuration under `roc_binaries_path`;
/// `_roc_path`, the Roc source tree they are built from, is not read.
pub fn create_compiler_paths(_roc_path: &str, roc_binaries_path: &str) -> (paths: Vec<String>)
    ensures
        paths@.len() == CONFIGURATION_COUNT,
        forall|ci: int|
            0 <= ci < CONFIGURATION_COUNT ==> #[trigger] paths@[ci]@ == compiler_path(
                roc_binaries_path@,
                ci,
            ),
{
    let mut paths: Vec<String> = Vec::new();
    let mut ci: usize = 0;
    while ci < CONFIGURATION_COUNT
        invariant
            ci <= CONFIGURATION_COUNT,
            paths@.len() == ci,
            forall|cj: int|
                0 <= cj < ci ==> #[trigger] paths@[cj]@ == compiler_path(roc_binaries_path@, cj),
        decreases CONFIGURATION_COUNT - ci,
    {
        let c = configuration(ci);
        let path = match c.variant {
            ConfigurationVariant::Roc(_) => {
                let output_dir = join_path(roc_binaries_path, c.name);
                join_path(output_dir.as_str(), "release/roc")
            },
            ConfigurationVariant::Koka => String::from_str("koka"),
            ConfigurationVariant::Haskell => String::from_str("ghc"),
        };
        paths.push(path);
        ci = ci + 1;
    }
    paths
}

/// The executable path of every run: `paths[ci][bi]` is where benchmark
/// `bi` built by configuration `ci` goes.
pub fn create_benchmark_paths(binaries_path: &str) -> (paths: Vec<Vec<String>>)
    ensures
        is_path_table(paths@),
        forall|ci: int, bi: int|
            0 <= ci < CONFIGURATION_COUNT && 0 <= bi < BENCHMARK_COUNT ==> #[trigger] paths@[ci]@[bi]@
                == executable_path(binaries_path@, ci, bi),
{
    let mut paths: Vec<Vec<String>> = Vec::new();
    let mut ci: usize = 0;
    while ci < CONFIGURATION_COUNT
        invariant
            ci <= CONFIGURATION_COUNT,
            paths@.len() == ci,
            forall|cj: int| 0 <= cj < ci ==> #[trigger] paths@[cj]@.len() == BENCHMARK_COUNT,
            forall|cj: int, bj: int|
                0 <= cj < ci && 0 <= bj < BENCHMARK_COUNT ==> #[trigger] paths@[cj]@[bj]@
                    == executable_path(binaries_path@, cj, bj),
        decreases CONFIGURATION_COUNT - ci,
    {
        let mut row: Vec<String> = Vec::new();
        let mut bi: usize = 0;
        while bi < BENCHMARK_COUNT
            invariant
                ci < CONFIGURATION_COUNT,
                bi <= BENCHMARK_COUNT,
                row@.len() == bi,
                forall|bj: int|
                    0 <= bj < bi ==> #[trigger] row@[bj]@ == executable_path(
                        binaries_path@,
                        ci as int,
                        bj,
                    ),
            decreases BENCHMARK_COUNT - bi,
        {
            let name = benchmark_run_name(ci, bi);
            row.push(join_path(binaries_path, name.as_str()));
            bi = bi + 1;
        }
        paths.push(row);
        ci = ci + 1;
    }
    paths
}

// ---------------------------------------------------------------------------
// Every run has its own compiler and executable
// ---------------------------------------------------------------------------

pub(crate) proof fn lemma_remove_slashes_identity(s: Seq<char>)
    requires
        forall|i: int| 0 <= i < s.len() ==> s[i] != '/',
    ensures
        remove_slashes(s) == s,
    decreases s.len(),
{
    if s.len() > 0 {
        lemma_remove_slashes_identity(s.drop_last());
        assert(s.drop_last().push(s.last()) =~= s);
    }
}

/// The text that `spec_join_path` puts before a relative segment.
pub open spec fn join_prefix(base: Seq<char>) -> Seq<char> {
    if base.len() == 0 || base.last() == '/' {
        base
    } else {
        base + seq!['/']
    }
}

proof fn lemma_join_relative(base: Seq<char>, seg: Seq<char>)
    requires
        seg.len() > 0,
        seg[0] != '/',
    ensures
        spec_join_path(base, seg) == join_prefix(base) + seg,
{
    if !(base.len() == 0 || base.last() == '/') {
        assert(base + seq!['/'] + seg =~= (base + seq!['/']) + seg);
    }
}

/// Joining two different relative segments onto one base gives two
/// different paths.
pub proof fn lemma_join_relative_injective(base: Seq<char>, x: Seq<char>, y: Seq<char>)
    requires
        x.len() > 0,
        x[0] != '/',
        y.len() > 0,
        y[0] != '/',
        spec_join_path(base, x) == spec_join_path(base, y),
    ensures
        x == y,
{
    lemma_join_relative(base, x);
    lemma_join_relative(base, y);
    let p = join_prefix(base);
    assert((p + x).subrange(p.len() as int, (p + x).len() as int) =~= x);
    assert((p + y).subrange(p.len() as int, (p + y).len() as int) =~= y);
}

/// Joining one relative segment onto two different bases that do not end
/// in `/` gives two different paths.
proof fn lemma_join_base_injective(x: Seq<char>, y: Seq<char>, seg: Seq<char>)
    requires
        x.len() > 0,
        x.last() != '/',
        y.len() > 0,
        y.last() != '/',
        seg.len() > 0,
        seg[0] != '/',
        spec_join_path(x, seg) == spec_join_path(y, seg),
    ensures
        x == y,
{
    let a = x + seq!['/'] + seg;
    let b = y + seq!['/'] + seg;
    assert(a.len() == b.len());
    assert(a.subrange(0, x.len() as int) =~= x);
    assert(b.subrange(0, y.len() as int) =~= y);
}

/// A text `a + " " + b` whose tail `b` holds no space is split at its last
/// space: `a` and `b` are determined by the text.
proof fn lemma_split_at_last_space(a: Seq<char>, b: Seq<char>, a2: Seq<char>, b2: Seq<char>)
    requires
        forall|i: int| 0 <= i < b.len() ==> b[i] != ' ',
        forall|i: int| 0 <= i < b2.len() ==> b2[i] != ' ',
        a + seq![' '] + b == a2 + seq![' '] + b2,
    ensures
        a == a2,
        b == b2,
{
    let s = a + seq![' '] + b;
    let s2 = a2 + seq![' '] + b2;
    assert(s.len() == a.len() + 1 + b.len());
    assert(s2.len() == a2.len() + 1 + b2.len());
    if b.len() < b2.len() {
        let k = a.len() as int;
        let p2 = a2 + seq![' '];
        assert(a2.len() < a.len());
        assert(s[k] == (a + seq![' '])[k]);
        assert(s[k] == ' ');
        assert(s2[k] == b2[k - p2.len()]);
        assert(b2[k - p2.len()] != ' ');
    } else if b2.len() < b.len() {
        let k = a2.len() as int;
        let p = a + seq![' '];
        assert(a.len() < a2.len());
        assert(s2[k] == (a2 + seq![' '])[k]);
        assert(s2[k] == ' ');
        assert(s[k] == b[k - p.len()]);
        assert(b[k - p.len()] != ' ');
    }
    assert(a.len() == a2.len());
    assert(s.subrange(0, a.len() as int) =~= a);
    assert(s2.subrange(0, a2.len() as int) =~= a2);
    assert(s.subrange(a.len() as int + 1, s.len() as int) =~= b);
    assert(s2.subrange(a2.len() as int + 1, s2.len() as int) =~= b2);
}

proof fn lemma_configuration_names(ci: int, cj: int)
    requires
        0 <= ci < CONFIGURATION_COUNT,
        0 <= cj < CONFIGURATION_COUNT,
    ensures
        configuration_name(ci).len() > 0,
        configuration_name(ci)[0] != '/',
        configuration_name(ci).last() != '/',
        forall|i: int| 0 <= i < configuration_name(ci).len() ==> configuration_name(ci)[i] != '/',
        ci != cj ==> configuration_name(ci) != configuration_name(cj),
{
    reveal_strlit("Beans");
    reveal_strlit("Beans Specialized");
    reveal_strlit("Perceus");
    reveal_strlit("Perceus Specialized");
    reveal_strlit("Koka");
    reveal_strlit("Haskell");
    assert("Perceus"@[0] != "Haskell"@[0]);
    assert("Beans"@.len() == 5);
    assert("Beans Specialized"@.len() == 17);
    assert("Perceus"@.len() == 7);
    assert("Perceus Specialized"@.len() == 19);
    assert("Koka"@.len() == 4);
    assert("Haskell"@.len() == 7);
}

proof fn lemma_benchmark_names(bi: int, bj: int)
    requires
        0 <= bi < BENCHMARK_COUNT,
        0 <= bj < BENCHMARK_COUNT,
    ensures
        forall|i: int| 0 <= i < benchmark_name(bi).len() ==> benchmark_name(bi)[i] != '/',
        forall|i: int| 0 <= i < benchmark_name(bi).len() ==> benchmark_name(bi)[i] != ' ',
        bi != bj ==> benchmark_name(bi) != benchmark_name(bj),
{
    reveal_strlit("Deriv");
    reveal_strlit("NQueens");
    reveal_strlit("CFold");
    reveal_strlit("RBTree");
    reveal_strlit("RBTreeCk");
    assert("Deriv"@[0] != "CFold"@[0]);
    assert("Deriv"@.len() == 5);
    assert("NQueens"@.len() == 7);
    assert("CFold"@.len() == 5);
    assert("RBTree"@.len() == 6);
    assert("RBTreeCk"@.len() == 8);
}

proof fn lemma_run_name(ci: int, bi: int)
    requires
        0 <= ci < CONFIGURATION_COUNT,
        0 <= bi < BENCHMARK_COUNT,
    ensures
        run_name(ci, bi) == configuration_name(ci) + seq![' '] + benchmark_name(bi),
        run_name(ci, bi).len() > 0,
        run_name(ci, bi)[0] != '/',
{
    reveal_strlit(" ");
    lemma_configuration_names(ci, ci);
    lemma_benchmark_names(bi, bi);
    lemma_remove_slashes_identity(configuration_name(ci));
    lemma_remove_slashes_identity(benchmark_name(bi));
}

/// No two runs share an executable: the executable paths of two different
/// (configuration, benchmark) pairs differ, whatever the binaries
/// directory.
pub proof fn lemma_executable_paths_distinct(
    binaries_path: Seq<char>,
    ci: int,
    bi: int,
    cj: int,
    bj: int,
)
    requires
        0 <= ci < CONFIGURATION_COUNT,
        0 <= cj < CONFIGURATION_COUNT,
        0 <= bi < BENCHMARK_COUNT,
        0 <= bj < BENCHMARK_COUNT,
        ci != cj || bi != bj,
    ensures
        executable_path(binaries_path, ci, bi) != executable_path(binaries_path, cj, bj),
{
    lemma_run_name(ci, bi);
    lemma_run_name(cj, bj);
    lemma_configuration_names(ci, cj);
    lemma_benchmark_names(bi, bj);
    lemma_benchmark_names(bj, bi);
    if executable_path(binaries_path, ci, bi) == executable_path(binaries_path, cj, bj) {
        lemma_join_relative_injective(binaries_path, run_name(ci, bi), run_name(cj, bj));
        lemma_split_at_last_space(
            configuration_name(ci),
            benchmark_name(bi),
            configuration_name(cj),
            benchmark_name(bj),
        );
    }
}

/// No two configurations share a compiler: each Roc configuration has the
/// compiler of its own build directory, and those differ from each other
/// and from `koka` and `ghc`.
pub proof fn lemma_compiler_paths_distinct(roc_binaries_path: Seq<char>, ci: int, cj: int)
    requires
        0 <= ci < CONFIGURATION_COUNT,
        0 <= cj < CONFIGURATION_COUNT,
        ci != cj,
    ensures
        compiler_path(roc_binaries_path, ci) != compiler_path(roc_binaries_path, cj),
{
    reveal_strlit("release/roc");
    reveal_strlit("koka");
    reveal_strlit("ghc");
    let release = "release/roc"@;
    assert(release.len() == 11);
    lemma_configuration_names(ci, cj);
    lemma_configuration_names(cj, ci);
    if ci < 4 {
        let x = spec_join_path(roc_binaries_path, configuration_name(ci));
        lemma_join_relative(roc_binaries_path, configuration_name(ci));
        assert(x.last() == configuration_name(ci).last());
        lemma_join_relative(x, release);
        assert(compiler_path(roc_binaries_path, ci).len() >= 11);
    }
    if cj < 4 {
        let y = spec_join_path(roc_binaries_path, configuration_name(cj));
        lemma_join_relative(roc_binaries_path, configuration_name(cj));
        assert(y.last() == configuration_name(cj).last());
        lemma_join_relative(y, release);
        assert(compiler_path(roc_binaries_path, cj).len() >= 11);
    }
    if ci < 4 && cj < 4 && compiler_path(roc_binaries_path, ci) == compiler_path(
        roc_binaries_path,
        cj,
    ) {
        let x = spec_join_path(roc_binaries_path, configuration_name(ci));
        let y = spec_join_path(roc_binaries_path, configuration_name(cj));
        lemma_join_base_injective(x, y, release);
        lemma_join_relative_injective(
            roc_binaries_path,
            configuration_name(ci),
            configuration_name(cj),
        );
    }
    assert("koka"@.len() == 4);
    assert("ghc"@.len() == 3);
}

// ---------------------------------------------------------------------------
// Timing with hyperfine
// ---------------------------------------------------------------------------

/// The shell command that runs an executable with an unlimited stack.
pub open spec fn timed_command(executable: Seq<char>) -> Seq<char> {
    "ulimit -s unlimited && \""@ + executable + "\""@
}

/// The arguments that precede the commands given to `hyperfine`: three
/// warm-up runs, `iterations` timed runs, export of the results as CSV to
/// `csv_path`, and carrying on when a command fails.
pub open spec fn hyperfine_options(iterations: u32, csv_path: Seq<char>) -> Seq<Seq<char>> {
    seq![
        "--warmup"@,
        "3"@,
        "--runs"@,
        crate::text::decimal(iterations as nat),
        "--export-csv"@,
        csv_path,
        "--ignore-failure"@,
    ]
}

/// The number of arguments given to `hyperfine`: the options, then three
/// per run.
pub open spec fn hyperfine_argument_count() -> nat {
    7 + 3 * (CONFIGURATION_COUNT * BENCHMARK_COUNT) as nat
}

/// The three arguments of the run of benchmark `bi` under configuration
/// `ci`: `--command-name`, the run's name, and the command that runs its
/// executable.
pub open spec fn run_arguments_at(
    args: Seq<Seq<char>>,
    executables: Seq<Vec<String>>,
    bi: int,
    ci: int,
) -> bool {
    &&& args[7 + 18 * bi + 3 * ci] == "--command-name"@
    &&& args[8 + 18 * bi + 3 * ci] == run_name(ci, bi)
    &&& args[9 + 18 * bi + 3 * ci] == timed_command(executables[ci]@[bi]@)
}

/// `args` are the arguments of `hyperfine`: the options, then for every
/// benchmark `bi` and within it every configuration `ci`, the triple
/// `--command-name`, the run's name, and the command that runs
/// `executables[ci][bi]`.
pub open spec fn is_hyperfine_arguments(
    args: Seq<Seq<char>>,
    iterations: u32,
    csv_path: Seq<char>,
    executables: Seq<Vec<String>>,
) -> bool {
    &&& args.len() == hyperfine_argument_count()
    &&& args.subrange(0, 7) == hyperfine_options(iterations, csv_path)
    &&& forall|bi: int, ci: int|
        0 <= bi < BENCHMARK_COUNT && 0 <= ci < CONFIGURATION_COUNT ==> #[trigger] run_arguments_at(
            args,
            executables,
            bi,
            ci,
        )
}

/// The arguments with which `hyperfine` times every run, `iterations` times
/// each, writing its summary to `csv_path`.
pub fn hyperfine_arguments(iterations: u32, csv_path: &str, executables: &Vec<Vec<String>>) -> (args:
    Vec<String>)
    requires
        is_path_table(executables@),
    ensures
        is_hyperfine_arguments(texts(args@), iterations, csv_path@, executables@),
{
    let mut args: Vec<String> = Vec::new();
    args.push(String::from_str("--warmup"));
    args.push(String::from_str("3"));
    args.push(String::from_str("--runs"));
    args.push(crate::text::u64_to_decimal(iterations as u64));
    args.push(String::from_str("--export-csv"));
    args.push(String::from_str(csv_path));
    args.push(String::from_str("--ignore-failure"));
    assert(texts(args@) =~= hyperfine_options(iterations, csv_path@));
    let mut bi: usize = 0;
    while bi < BENCHMARK_COUNT
        invariant
            bi <= BENCHMARK_COUNT,
            is_path_table(executables@),
            args@.len() == 7 + 18 * bi,
            texts(args@).subrange(0, 7) == hyperfine_options(iterations, csv_path@),
            forall|bj: int, cj: int|
                0 <= bj < bi && 0 <= cj < CONFIGURATION_COUNT ==> #[trigger] run_arguments_at(
                    texts(args@),
                    executables@,
                    bj,
                    cj,
                ),
        decreases BENCHMARK_COUNT - bi,
    {
        let mut ci: usize = 0;
        while ci < CONFIGURATION_COUNT
            invariant
                bi < BENCHMARK_COUNT,
                ci <= CONFIGURATION_COUNT,
                is_path_table(executables@),
                args@.len() == 7 + 18 * bi + 3 * ci,
                texts(args@).subrange(0, 7) == hyperfine_options(iterations, csv_path@),
                forall|bj: int, cj: int|
                    (0 <= bj < bi && 0 <= cj < CONFIGURATION_COUNT) || (bj == bi && 0 <= cj < ci)
                        ==> #[trigger] run_arguments_at(texts(args@), executables@, bj, cj),
            decreases CONFIGURATION_COUNT - ci,
        {
            let ghost before = texts(args@);
            let executable: &String = &executables[ci][bi];
            args.push(String::from_str("--command-name"));
            args.push(benchmark_run_name(ci, bi));
            args.push(concat3("ulimit -s unlimited && \"", executable.as_str(), "\""));
            let ghost after = texts(args@);
            assert(after.len() == before.len() + 3);
            assert forall|k: int| 0 <= k < before.len() implies after[k] == before[k] by {
                assert(after[k] == args@[k]@);
            }
            assert(after.subrange(0, 7) =~= before.subrange(0, 7));
            assert(after[7 + 18 * bi + 3 * ci] == args@[7 + 18 * bi + 3 * ci]@);
            assert(after[8 + 18 * bi + 3 * ci] == args@[8 + 18 * bi + 3 * ci]@);
            assert(after[9 + 18 * bi + 3 * ci] == args@[9 + 18 * bi + 3 * ci]@);
            assert(run_arguments_at(after, executables@, bi as int, ci as int));
            assert forall|bj: int, cj: int|
                (0 <= bj < bi && 0 <= cj < CONFIGURATION_COUNT) || (bj == bi && 0 <= cj < ci + 1)
                    implies #[trigger] run_arguments_at(after, executables@, bj, cj) by {
                if bj != bi || cj != ci {
                    assert(run_arguments_at(before, executables@, bj, cj));
                }
            }
            ci = ci + 1;
        }
        bi = bi + 1;
    }
    args
}

/// The build of a Koka or GHC run writes its executable exactly where the
/// timing of that run executes it.
pub proof fn lemma_built_executable_is_timed(
    args: Seq<Seq<char>>,
    iterations: u32,
    csv_path: Seq<char>,
    executables: Seq<Vec<String>>,
    benchmarks_path: Seq<char>,
    ci: int,
    bi: int,
)
    requires
        is_hyperfine_arguments(args, iterations, csv_path, executables),
        0 <= bi < BENCHMARK_COUNT,
        ci == 4 || ci == 5,
    ensures
        ({
            let executable = executables[ci]@[bi]@;
            let build = build_arguments(benchmarks_path, executable, ci, bi);
            &&& ci == 4 ==> build[3] == executable
            &&& ci == 5 ==> build[2] == executable
            &&& args[9 + 18 * bi + 3 * ci] == timed_command(executable)
        }),
{
    assert(run_arguments_at(args, executables, bi, ci));
}

// ---------------------------------------------------------------------------
// Memory usage
// ---------------------------------------------------------------------------

/// The line of `/usr/bin/time -v` that reports the peak memory use.
pub open spec fn memory_usage_pattern() -> Seq<char> {
    "Maximum resident set size \\(kbytes\\): (.*)"@
}

/// A memory use in kilobytes, written as text, converted to whole megabytes
/// (rounding toward zero) written as text; `None` if the text is not an
/// `i32`.
pub open spec fn megabytes_text(kbytes: Seq<char>) -> Option<Seq<char>> {
    match spec_parse_i32(kbytes) {
        Some(v) => Some(signed_decimal(div_toward_zero(v as int, 1024))),
        None => None,
    }
}

/// The peak memory use in megabytes reported in the output of
/// `/usr/bin/time -v`.
pub open spec fn reported_megabytes(time_output: Seq<char>) -> Option<Seq<char>> {
    match regex_capture(memory_usage_pattern(), time_output, 1) {
        Some(kbytes) => megabytes_text(kbytes),
        None => None,
    }
}

/// Converts a memory use in kilobytes, written as text, to whole megabytes.
pub fn megabytes_from_kbytes_text(kbytes: &str) -> (megabytes: Option<String>)
    ensures
        option_text(megabytes) == megabytes_text(kbytes@),
{
    match parse_i32(kbytes) {
        Some(v) => Some(i32_to_decimal(i32_div(v, 1024))),
        None => None,
    }
}

/// Reads the peak memory use, in megabytes, from what `/usr/bin/time -v`
/// printed; `None` where the report is missing or not a number.
pub fn memory_usage_megabytes(time_output: &str) -> (megabytes: Option<String>)
    ensures
        option_text(megabytes) == reported_megabytes(time_output@),
{
    let pattern = "Maximum resident set size \\(kbytes\\): (.*)";
    match capture_group(pattern, time_output, 1) {
        Some(kbytes) => megabytes_from_kbytes_text(kbytes.as_str()),
        None => None,
    }
}

/// The header of the memory table: an empty corner, then the benchmark
/// names.
pub open spec fn memory_header() -> Seq<Seq<char>> {
    seq![""@, benchmark_name(0), benchmark_name(1), benchmark_name(2), benchmark_name(3), benchmark_name(4)]
}

/// The header row of the memory CSV.
pub fn memory_csv_header() -> (row: Vec<String>)
    ensures
        texts(row@) == memory_header(),
{
    let mut row: Vec<String> = Vec::new();
    row.push(String::from_str(""));
    let mut bi: usize = 0;
    while bi < BENCHMARK_COUNT
        invariant
            bi <= BENCHMARK_COUNT,
            texts(row@) == memory_header().subrange(0, bi + 1),
        decreases BENCHMARK_COUNT - bi,
    {
        let ghost before = texts(row@);
        row.push(String::from_str(benchmark(bi).name));
        assert(texts(row@) =~= before.push(benchmark_name(bi as int)));
        assert(memory_header().subrange(0, bi + 2) =~= memory_header().subrange(0, bi + 1).push(
            benchmark_name(bi as int),
        ));
        bi = bi + 1;
    }
    assert(memory_header().subrange(0, 6) =~= memory_header());
    row
}

/// The row of the memory CSV for configuration `ci`: its name, then the
/// memory use of each benchmark.
pub fn memory_csv_row(ci: usize, megabytes: &Vec<String>) -> (row: Vec<String>)
    requires
        ci < CONFIGURATION_COUNT,
        megabytes@.len() == BENCHMARK_COUNT,
    ensures
        texts(row@) == seq![configuration_name(ci as int)] + texts(megabytes@),
{
    let mut row: Vec<String> = Vec::new();
    row.push(String::from_str(configuration(ci).name));
    let mut bi: usize = 0;
    while bi < megabytes.len()
        invariant
            bi <= megabytes@.len(),
            texts(row@) == seq![configuration_name(ci as int)] + texts(megabytes@).subrange(
                0,
                bi as int,
            ),
        decreases megabytes@.len() - bi,
    {
        let ghost before = texts(row@);
        row.push(megabytes[bi].clone());
        assert(texts(row@) =~= before.push(megabytes@[bi as int]@));
        assert(texts(megabytes@).subrange(0, bi + 1) =~= texts(megabytes@).subrange(
            0,
            bi as int,
        ).push(megabytes@[bi as int]@));
        bi = bi + 1;
    }
    assert(texts(megabytes@).subrange(0, megabytes@.len() as int) =~= texts(megabytes@));
    row
}

// ---------------------------------------------------------------------------
// Building the benchmarks
// ---------------------------------------------------------------------------

/// What is done once a build command has run.
#[derive(Debug, Clone, Copy, PartialEq, Eq, Structural)]
pub enum AfterBuild {
    /// Roc reports where it wrote the executable; move it to the run's path.
    MoveRocOutput,
    /// Make the executable that Koka wrote readable and executable by all.
    MakeExecutable,
    /// Nothing: GHC writes the executable where it was asked to.
    Nothing,
}

/// One compiler invocation that builds one benchmark.
pub struct BuildCommand {
    /// The compiler to run.
    pub program: String,
    /// Its arguments.
    pub args: Vec<String>,
    /// Whether `PATH` is passed on without its `/nix/` directories.
    pub filters_nix_from_path: bool,
    /// Whether the compiler's output is captured (rather than inherited).
    pub captures_output: bool,
    /// What follows the build.
    pub after: AfterBuild,
}

/// The arguments that build benchmark `bi` with configuration `ci`, from
/// the sources under `benchmarks_path`, into `executable`.
pub open spec fn build_arguments(
    benchmarks_path: Seq<char>,
    executable: Seq<char>,
    ci: int,
    bi: int,
) -> Seq<Seq<char>> {
    match configuration_variant(ci) {
        ConfigurationVariant::Roc(_) => seq![
            "build"@,
            "--optimize"@,
            spec_join_path(benchmarks_path, benchmark_roc_path(bi)),
        ],
        ConfigurationVariant::Koka => seq![
            spec_join_path(benchmarks_path, benchmark_koka_path(bi)),
            "-O2"@,
            "--output"@,
            executable,
        ],
        ConfigurationVariant::Haskell => seq![
            "--make"@,
            "-o"@,
            executable,
            "-O"@,
            spec_join_path(benchmarks_path, benchmark_haskell_path(bi)),
        ],
    }
}

/// What follows the build of configuration `ci`.
pub open spec fn after_build(ci: int) -> AfterBuild {
    match configuration_variant(ci) {
        ConfigurationVariant::Roc(_) => AfterBuild::MoveRocOutput,
        ConfigurationVariant::Koka => AfterBuild::MakeExecutable,
        ConfigurationVariant::Haskell => AfterBuild::Nothing,
    }
}

/// The command that builds benchmark `bi` with configuration `ci`.
pub fn build_command(
    ci: usize,
    bi: usize,
    compiler_paths: &Vec<String>,
    benchmarks_path: &str,
    executables: &Vec<Vec<String>>,
) -> (command: BuildCommand)
    requires
        ci < CONFIGURATION_COUNT,
        bi < BENCHMARK_COUNT,
        compiler_paths@.len() == CONFIGURATION_COUNT,
        is_path_table(executables@),
    ensures
        command.program@ == compiler_paths@[ci as int]@,
        texts(command.args@) == build_arguments(
            benchmarks_path@,
            executables@[ci as int]@[bi as int]@,
            ci as int,
            bi as int,
        ),
        command.filters_nix_from_path == (configuration_variant(ci as int) is Haskell),
        command.captures_output == !(configuration_variant(ci as int) is Koka),
        command.after == after_build(ci as int),
{
    let c = configuration(ci);
    let b = benchmark(bi);
    let executable: &String = &executables[ci][bi];
    let program = compiler_paths[ci].clone();
    let mut args: Vec<String> = Vec::new();
    match c.variant {
        ConfigurationVariant::Roc(_) => {
            args.push(String::from_str("build"));
            args.push(String::from_str("--optimize"));
            args.push(join_path(benchmarks_path, b.roc_path));
            assert(texts(args@) =~= build_arguments(
                benchmarks_path@,
                executable@,
                ci as int,
                bi as int,
            ));
            BuildCommand {
                program,
                args,
                filters_nix_from_path: false,
                captures_output: true,
                after: AfterBuild::MoveRocOutput,
            }
        },
        ConfigurationVariant::Koka => {
            args.push(join_path(benchmarks_path, b.koka_path));
            args.push(String::from_str("-O2"));
            args.push(String::from_str("--output"));
            args.push(executable.clone());
            assert(texts(args@) =~= build_arguments(
                benchmarks_path@,
                executable@,
                ci as int,
                bi as int,
            ));
            BuildCommand {
                program,
                args,
                filters_nix_from_path: false,
                captures_output: false,
                after: AfterBuild::MakeExecutable,
            }
        },
        ConfigurationVariant::Haskell => {
            args.push(String::from_str("--make"));
            args.push(String::from_str("-o"));
            args.push(executable.clone());
            args.push(String::from_str("-O"));
            args.push(join_path(benchmarks_path, b.haskell_path));
            assert(texts(args@) =~= build_arguments(
                benchmarks_path@,
                executable@,
                ci as int,
                bi as int,
            ));
            BuildCommand {
                program,
                args,
                filters_nix_from_path: true,
                captures_output: true,
                after: AfterBuild::Nothing,
            }
        },
    }
}

/// The line of the Roc compiler's report that gives the path of the
/// executable it wrote, relative to the directory above the benchmarks.
pub open spec fn roc_output_pattern() -> Seq<char> {
    "\n\n    (.*)"@
}

/// The path, under `output_base`, of the executable whose relative path
/// the Roc compiler reported in `build_stdout`.
pub open spec fn roc_output_path(output_base: Seq<char>, build_stdout: Seq<char>) -> Option<
    Seq<char>,
> {
    match regex_capture(roc_output_pattern(), build_stdout, 1) {
        Some(relative) => Some(spec_join_path(output_base, relative)),
        None => None,
    }
}

/// Where the Roc compiler says, in `build_stdout`, that it wrote the
/// executable, taken relative to `output_base`.
pub fn roc_output_under(output_base: &str, build_stdout: &str) -> (path: Option<String>)
    ensures
        option_text(path) == roc_output_path(output_base@, build_stdout@),
{
    match capture_group("\n\n    (.*)", build_stdout, 1) {
        Some(relative) => Some(join_path(output_base, relative.as_str())),
        None => None,
    }
}

/// Where the executable that the Roc compiler reported in `build_stdout`
/// is: its relative path taken under the parent directory of
/// `benchmarks_path`; `None` when the report is missing or
/// `benchmarks_path` has no parent.
pub open spec fn roc_executable_path(benchmarks_path: Seq<char>, build_stdout: Seq<char>) -> Option<
    Seq<char>,
> {
    match spec_parent(benchmarks_path) {
        Some(base) => roc_output_path(base, build_stdout),
        None => None,
    }
}

/// Where the Roc compiler says, in `build_stdout`, that it wrote the
/// executable: relative to the directory that holds `benchmarks_path`.
pub fn roc_built_executable(benchmarks_path: &str, build_stdout: &str) -> (path: Option<String>)
    ensures
        option_text(path) == roc_executable_path(benchmarks_path@, build_stdout@),
{
    match parent_path(benchmarks_path) {
        Some(base) => roc_output_under(base.as_str(), build_stdout),
        None => None,
    }
}

// ---------------------------------------------------------------------------
// The search path of GHC
// ---------------------------------------------------------------------------

/// The entries of a `:`-separated list, in order (`str::split(':')`).
pub open spec fn split_colons(s: Seq<char>) -> Seq<Seq<char>>
    decreases s.len(),
{
    if s.len() == 0 {
        seq![seq![]]
    } else {
        let init = split_colons(s.drop_last());
        if s.last() == ':' {
            init.push(seq![])
        } else {
            init.update(init.len() - 1, init.last().push(s.last()))
        }
    }
}

/// Whether a directory lies in the Nix store, i.e. starts with `/nix/`.
pub open spec fn in_nix_store(dir: Seq<char>) -> bool {
    dir.len() >= 5 && dir[0] == '/' && dir[1] == 'n' && dir[2] == 'i' && dir[3] == 'x' && dir[4]
        == '/'
}

/// The entries that do not lie in the Nix store, in order.
pub open spec fn without_nix(dirs: Seq<Seq<char>>) -> Seq<Seq<char>>
    decreases dirs.len(),
{
    if dirs.len() == 0 {
        seq![]
    } else {
        let kept = without_nix(dirs.drop_last());
        if in_nix_store(dirs.last()) {
            kept
        } else {
            kept.push(dirs.last())
        }
    }
}

/// The entries joined with `:` between them (`[..].join(":")`).
pub open spec fn join_colons(dirs: Seq<Seq<char>>) -> Seq<char>
    decreases dirs.len(),
{
    if dirs.len() == 0 {
        seq![]
    } else if dirs.len() == 1 {
        dirs[0]
    } else {
        join_colons(dirs.drop_last()) + seq![':'] + dirs.last()
    }
}

/// `path` without the directories that lie in the Nix store.
pub open spec fn path_without_nix(path: Seq<char>) -> Seq<char> {
    join_colons(without_nix(split_colons(path)))
}

proof fn lemma_split_colons_nonempty(s: Seq<char>)
    ensures
        split_colons(s).len() >= 1,
    decreases s.len(),
{
    if s.len() > 0 {
        lemma_split_colons_nonempty(s.drop_last());
    }
}

/// What appending one entry does to the kept entries and to their joined
/// text.
proof fn lemma_keep_segment(done: Seq<Seq<char>>, current: Seq<char>)
    ensures
        in_nix_store(current) ==> without_nix(done.push(current)) == without_nix(done),
        !in_nix_store(current) ==> without_nix(done.push(current)) == without_nix(done).push(
            current,
        ),
        !in_nix_store(current) ==> join_colons(without_nix(done.push(current))) == if without_nix(
            done,
        ).len() == 0 {
            current
        } else {
            join_colons(without_nix(done)) + seq![':'] + current
        },
{
    assert(done.push(current).drop_last() =~= done);
    let w = without_nix(done);
    assert(w.push(current).drop_last() =~= w);
}

/// Whether no entry holds a `:`.
pub open spec fn colon_free(dirs: Seq<Seq<char>>) -> bool {
    forall|k: int, i: int| 0 <= k < dirs.len() && 0 <= i < dirs[k].len() ==> #[trigger] dirs[k][i]
        != ':'
}

proof fn lemma_split_colons_colon_free(s: Seq<char>)
    ensures
        colon_free(split_colons(s)),
    decreases s.len(),
{
    if s.len() > 0 {
        lemma_split_colons_colon_free(s.drop_last());
        lemma_split_colons_nonempty(s.drop_last());
        let init = split_colons(s.drop_last());
        if s.last() != ':' {
            let r = init.update(init.len() - 1, init.last().push(s.last()));
            assert forall|k: int, i: int| 0 <= k < r.len() && 0 <= i < r[k].len() implies #[trigger] r[k][i]
                != ':' by {
                if k == init.len() - 1 {
                    if i < init.last().len() {
                        assert(r[k][i] == init[k][i]);
                    }
                } else {
                    assert(r[k] == init[k]);
                }
            }
        } else {
            let r = init.push(seq![]);
            assert forall|k: int, i: int| 0 <= k < r.len() && 0 <= i < r[k].len() implies #[trigger] r[k][i]
                != ':' by {
                assert(r[k] == init[k]);
            }
        }
    }
}

proof fn lemma_without_nix_kept(dirs: Seq<Seq<char>>)
    requires
        colon_free(dirs),
    ensures
        colon_free(without_nix(dirs)),
        forall|k: int| 0 <= k < without_nix(dirs).len() ==> !in_nix_store(#[trigger] without_nix(dirs)[k]),
    decreases dirs.len(),
{
    if dirs.len() > 0 {
        let init = dirs.drop_last();
        assert forall|k: int, i: int| 0 <= k < init.len() && 0 <= i < init[k].len() implies #[trigger] init[k][i]
            != ':' by {
            assert(init[k] == dirs[k]);
        }
        lemma_without_nix_kept(init);
        let w = without_nix(init);
        if !in_nix_store(dirs.last()) {
            let r = w.push(dirs.last());
            assert forall|k: int, i: int| 0 <= k < r.len() && 0 <= i < r[k].len() implies #[trigger] r[k][i]
                != ':' by {
                if k < w.len() {
                    assert(r[k] == w[k]);
                } else {
                    assert(r[k] == dirs[dirs.len() - 1]);
                }
            }
            assert forall|k: int| 0 <= k < r.len() implies !in_nix_store(#[trigger] r[k]) by {
                if k < w.len() {
                    assert(r[k] == w[k]);
                }
            }
        }
    }
}

proof fn lemma_without_nix_identity(dirs: Seq<Seq<char>>)
    requires
        forall|k: int| 0 <= k < dirs.len() ==> !in_nix_store(#[trigger] dirs[k]),
    ensures
        without_nix(dirs) == dirs,
    decreases dirs.len(),
{
    if dirs.len() > 0 {
        let init = dirs.drop_last();
        assert forall|k: int| 0 <= k < init.len() implies !in_nix_store(#[trigger] init[k]) by {
            assert(init[k] == dirs[k]);
        }
        lemma_without_nix_identity(init);
        assert(!in_nix_store(dirs[dirs.len() - 1]));
        assert(init.push(dirs.last()) =~= dirs);
    }
}

proof fn lemma_split_single(d: Seq<char>)
    requires
        forall|i: int| 0 <= i < d.len() ==> d[i] != ':',
    ensures
        split_colons(d) == seq![d],
    decreases d.len(),
{
    if d.len() > 0 {
        lemma_split_single(d.drop_last());
        assert(d.drop_last().push(d.last()) =~= d);
        assert(seq![d.drop_last()].update(0, d.drop_last().push(d.last())) =~= seq![d]);
    } else {
        assert(d =~= Seq::<char>::empty());
    }
}

proof fn lemma_split_after_colon(x: Seq<char>, d: Seq<char>)
    requires
        forall|i: int| 0 <= i < d.len() ==> d[i] != ':',
    ensures
        split_colons(x + seq![':'] + d) == split_colons(x).push(d),
    decreases d.len(),
{
    if d.len() == 0 {
        let s = x + seq![':'] + d;
        assert(s.drop_last() =~= x);
        assert(d =~= Seq::<char>::empty());
    } else {
        let d0 = d.drop_last();
        lemma_split_after_colon(x, d0);
        let s = x + seq![':'] + d;
        assert(s.drop_last() =~= x + seq![':'] + d0);
        assert(s.last() == d.last());
        let r = split_colons(x).push(d0);
        assert(d0.push(d.last()) =~= d);
        assert(r.update(r.len() - 1, d0.push(d.last())) =~= split_colons(x).push(d));
    }
}

proof fn lemma_split_join(dirs: Seq<Seq<char>>)
    requires
        dirs.len() >= 1,
        colon_free(dirs),
    ensures
        split_colons(join_colons(dirs)) == dirs,
    decreases dirs.len(),
{
    if dirs.len() == 1 {
        assert forall|i: int| 0 <= i < dirs[0].len() implies dirs[0][i] != ':' by {
            assert(dirs[0][i] != ':');
        }
        lemma_split_single(dirs[0]);
        assert(seq![dirs[0]] =~= dirs);
    } else {
        let init = dirs.drop_last();
        assert forall|k: int, i: int| 0 <= k < init.len() && 0 <= i < init[k].len() implies #[trigger] init[k][i]
            != ':' by {
            assert(init[k] == dirs[k]);
        }
        lemma_split_join(init);
        let last = dirs.last();
        assert forall|i: int| 0 <= i < last.len() implies last[i] != ':' by {
            assert(dirs[dirs.len() - 1][i] != ':');
        }
        lemma_split_after_colon(join_colons(init), last);
        assert(init.push(last) =~= dirs);
    }
}

/// No entry of the filtered `PATH` lies in the Nix store.
pub proof fn lemma_path_without_nix_leaves_no_nix(path: Seq<char>)
    ensures
        forall|k: int|
            0 <= k < split_colons(path_without_nix(path)).len() ==> !in_nix_store(
                #[trigger] split_colons(path_without_nix(path))[k],
            ),
{
    let kept = without_nix(split_colons(path));
    lemma_split_colons_colon_free(path);
    lemma_without_nix_kept(split_colons(path));
    if kept.len() == 0 {
        let empty: Seq<char> = Seq::empty();
        assert(join_colons(kept) == empty);
        assert(split_colons(empty) == seq![empty]);
        assert(!in_nix_store(empty));
    } else {
        lemma_split_join(kept);
    }
}

/// Filtering the Nix store out of `PATH` a second time changes nothing.
pub proof fn lemma_path_without_nix_idempotent(path: Seq<char>)
    ensures
        path_without_nix(path_without_nix(path)) == path_without_nix(path),
{
    let kept = without_nix(split_colons(path));
    lemma_split_colons_colon_free(path);
    lemma_without_nix_kept(split_colons(path));
    if kept.len() == 0 {
        let empty: Seq<char> = Seq::empty();
        assert(join_colons(kept) == empty);
        assert(split_colons(empty) == seq![empty]);
        let single = seq![empty];
        assert(single.drop_last() =~= Seq::<Seq<char>>::empty());
        assert(!in_nix_store(empty));
        assert(single.last() == empty);
        assert(without_nix(Seq::<Seq<char>>::empty()) == Seq::<Seq<char>>::empty());
        assert(without_nix(single) == Seq::<Seq<char>>::empty().push(empty));
        assert(join_colons(without_nix(single)) == empty);
    } else {
        lemma_split_join(kept);
        lemma_without_nix_identity(kept);
    }
}

/// Whether `dir` starts with `/nix/`.
fn starts_in_nix_store(dir: &str) -> (r: bool)
    ensures
        r == in_nix_store(dir@),
{
    let len = dir.unicode_len();
    len >= 5 && dir.get_char(0) == '/' && dir.get_char(1) == 'n' && dir.get_char(2) == 'i'
        && dir.get_char(3) == 'x' && dir.get_char(4) == '/'
}

/// The value of `PATH` that GHC is run with: the caller's `PATH` without
/// the directories of the Nix store.
pub fn filter_nix_from_path(path: &str) -> (filtered: String)
    ensures
        filtered@ == path_without_nix(path@),
{
    proof {
        reveal_strlit(":");
    }
    let len = path.unicode_len();
    let mut result = String::new();
    let mut any_kept = false;
    let mut seg_start: usize = 0;
    let mut i: usize = 0;
    assert(path@.subrange(0, 0) =~= Seq::<char>::empty());
    while i < len
        invariant
            seg_start <= i <= len == path@.len(),
            split_colons(path@.subrange(0, i as int)).len() >= 1,
            split_colons(path@.subrange(0, i as int)).last() == path@.subrange(
                seg_start as int,
                i as int,
            ),
            result@ == join_colons(without_nix(split_colons(path@.subrange(0, i as int)).drop_last())),
            any_kept == (without_nix(split_colons(path@.subrange(0, i as int)).drop_last()).len()
                > 0),
        decreases len - i,
    {
        let ghost prefix = path@.subrange(0, i as int);
        let ghost next = path@.subrange(0, i + 1);
        let ghost done = split_colons(prefix).drop_last();
        let ghost current = split_colons(prefix).last();
        let c = path.get_char(i);
        assert(next.drop_last() =~= prefix);
        assert(next.last() == c);
        if c == ':' {
            let segment = path.substring_char(seg_start, i);
            assert(split_colons(next).drop_last() =~= split_colons(prefix));
            assert(split_colons(prefix) =~= done.push(current));
            proof {
                lemma_keep_segment(done, current);
                reveal_strlit(":");
            }
            if !starts_in_nix_store(segment) {
                if any_kept {
                    result.append(":");
                }
                result.append(segment);
                any_kept = true;
            }
            seg_start = i + 1;
            assert(path@.subrange(seg_start as int, i + 1) =~= Seq::<char>::empty());
        } else {
            assert(split_colons(next).drop_last() =~= done);
            assert(path@.subrange(seg_start as int, i + 1) =~= current.push(c));
        }
        i = i + 1;
    }
    let ghost whole = split_colons(path@.subrange(0, len as int));
    let ghost done = whole.drop_last();
    let ghost current = whole.last();
    let segment = path.substring_char(seg_start, len);
    assert(whole =~= done.push(current));
    proof {
        lemma_keep_segment(done, current);
    }
    if !starts_in_nix_store(segment) {
        if any_kept {
            result.append(":");
        }
        result.append(segment);
    }
    assert(path@.subrange(0, len as int) =~= path@);
    result
}

// ---------------------------------------------------------------------------
// Laws of the tables and of the timing
// ---------------------------------------------------------------------------

/// Each configuration uses the compiler its name says: Koka and GHC under
/// their own names, and a Roc compiler built with drop specialisation
/// exactly when its name ends in ` Specialized` and with Perceus exactly
/// when its name starts with `Perceus`; no two configurations use the same
/// compiler.
pub proof fn lemma_configuration_variant_follows_name(ci: int, cj: int)
    requires
        0 <= ci < CONFIGURATION_COUNT,
        0 <= cj < CONFIGURATION_COUNT,
    ensures
        configuration_variant(ci) is Koka <==> configuration_name(ci) == "Koka"@,
        configuration_variant(ci) is Haskell <==> configuration_name(ci) == "Haskell"@,
        configuration_variant(ci) matches ConfigurationVariant::Roc(kind) ==> {
            &&& specialises_drops(kind) <==> " Specialized"@.is_suffix_of(configuration_name(ci))
            &&& uses_perceus(kind) <==> "Perceus"@.is_prefix_of(configuration_name(ci))
        },
        ci != cj ==> configuration_variant(ci) != configuration_variant(cj),
{
    lemma_configuration_names(ci, 4);
    lemma_configuration_names(ci, 5);
    reveal_strlit("Beans");
    reveal_strlit("Beans Specialized");
    reveal_strlit("Perceus");
    reveal_strlit("Perceus Specialized");
    reveal_strlit(" Specialized");
    let suffix = " Specialized"@;
    let perceus = "Perceus"@;
    assert(suffix.len() == 12);
    assert(perceus.len() == 7);
    assert("Beans"@.len() == 5);
    assert("Beans Specialized"@.len() == 17);
    assert("Perceus Specialized"@.len() == 19);
    assert("Beans Specialized"@.subrange(5, 17) =~= suffix);
    assert("Perceus Specialized"@.subrange(7, 19) =~= suffix);
    assert("Perceus"@.subrange(0, 7) =~= perceus);
    assert("Perceus Specialized"@.subrange(0, 7) =~= perceus);
    assert("Beans Specialized"@.subrange(0, 7)[0] != perceus[0]);
}

/// Each benchmark has sources of its own in every language: its Roc source
/// is `roc/<name>.roc`, its Koka source a `.kk` file under `koka/` and its
/// Haskell source a `.hs` file under `haskell/`, and no two benchmarks
/// share a source.
pub proof fn lemma_benchmark_sources_distinct(bi: int, bj: int)
    requires
        0 <= bi < BENCHMARK_COUNT,
        0 <= bj < BENCHMARK_COUNT,
    ensures
        benchmark_roc_path(bi) == "roc/"@ + benchmark_name(bi) + ".roc"@,
        "koka/"@.is_prefix_of(benchmark_koka_path(bi)),
        ".kk"@.is_suffix_of(benchmark_koka_path(bi)),
        "haskell/"@.is_prefix_of(benchmark_haskell_path(bi)),
        ".hs"@.is_suffix_of(benchmark_haskell_path(bi)),
        bi != bj ==> benchmark_roc_path(bi) != benchmark_roc_path(bj),
        bi != bj ==> benchmark_koka_path(bi) != benchmark_koka_path(bj),
        bi != bj ==> benchmark_haskell_path(bi) != benchmark_haskell_path(bj),
{
    lemma_benchmark_names(bi, bj);
    reveal_strlit("roc/");
    reveal_strlit(".roc");
    reveal_strlit("koka/");
    reveal_strlit(".kk");
    reveal_strlit("haskell/");
    reveal_strlit(".hs");
    reveal_strlit("Deriv");
    reveal_strlit("NQueens");
    reveal_strlit("CFold");
    reveal_strlit("RBTree");
    reveal_strlit("RBTreeCk");
    reveal_strlit("roc/Deriv.roc");
    reveal_strlit("roc/NQueens.roc");
    reveal_strlit("roc/CFold.roc");
    reveal_strlit("roc/RBTree.roc");
    reveal_strlit("roc/RBTreeCk.roc");
    reveal_strlit("koka/deriv.kk");
    reveal_strlit("koka/nqueens.kk");
    reveal_strlit("koka/cfold.kk");
    reveal_strlit("koka/rbtree.kk");
    reveal_strlit("koka/rbtree-ck.kk");
    reveal_strlit("haskell/deriv.hs");
    reveal_strlit("haskell/nqueens.hs");
    reveal_strlit("haskell/cfold.hs");
    reveal_strlit("haskell/rbtree.hs");
    reveal_strlit("haskell/rbtree-ck.hs");
    assert("roc/Deriv.roc"@ =~= "roc/"@ + "Deriv"@ + ".roc"@);
    assert("roc/NQueens.roc"@ =~= "roc/"@ + "NQueens"@ + ".roc"@);
    assert("roc/CFold.roc"@ =~= "roc/"@ + "CFold"@ + ".roc"@);
    assert("roc/RBTree.roc"@ =~= "roc/"@ + "RBTree"@ + ".roc"@);
    assert("roc/RBTreeCk.roc"@ =~= "roc/"@ + "RBTreeCk"@ + ".roc"@);
    assert("roc/Deriv.roc"@.len() == 13);
    assert("roc/NQueens.roc"@.len() == 15);
    assert("roc/CFold.roc"@.len() == 13);
    assert("roc/RBTree.roc"@.len() == 14);
    assert("roc/RBTreeCk.roc"@.len() == 16);
    assert("roc/Deriv.roc"@[4] != "roc/CFold.roc"@[4]);
    let k = benchmark_koka_path(bi);
    let h = benchmark_haskell_path(bi);
    assert(k.subrange(0, 5) =~= "koka/"@);
    assert(k.subrange(k.len() - 3, k.len() as int) =~= ".kk"@);
    assert(h.subrange(0, 8) =~= "haskell/"@);
    assert(h.subrange(h.len() - 3, h.len() as int) =~= ".hs"@);
    assert("koka/deriv.kk"@.len() == 13);
    assert("koka/nqueens.kk"@.len() == 15);
    assert("koka/cfold.kk"@.len() == 13);
    assert("koka/rbtree.kk"@.len() == 14);
    assert("koka/rbtree-ck.kk"@.len() == 17);
    assert("koka/deriv.kk"@[5] != "koka/cfold.kk"@[5]);
    assert("haskell/deriv.hs"@.len() == 16);
    assert("haskell/nqueens.hs"@.len() == 18);
    assert("haskell/cfold.hs"@.len() == 16);
    assert("haskell/rbtree.hs"@.len() == 17);
    assert("haskell/rbtree-ck.hs"@.len() == 20);
    assert("haskell/deriv.hs"@[8] != "haskell/cfold.hs"@[8]);
}

/// `hyperfine` times every run on the executable of that run: after the
/// options (three warm-up runs, `iterations` runs, CSV to `csv_path`), the
/// run of benchmark `bi` under configuration `ci` is named
/// `<configuration> <benchmark>` and runs `executables[ci][bi]`, with an
/// unlimited stack.
pub proof fn lemma_each_run_times_its_executable(
    args: Seq<Seq<char>>,
    iterations: u32,
    csv_path: Seq<char>,
    executables: Seq<Vec<String>>,
    bi: int,
    ci: int,
)
    requires
        is_hyperfine_arguments(args, iterations, csv_path, executables),
        0 <= bi < BENCHMARK_COUNT,
        0 <= ci < CONFIGURATION_COUNT,
    ensures
        args.len() == 7 + 3 * CONFIGURATION_COUNT * BENCHMARK_COUNT,
        args[0] == "--warmup"@,
        args[1] == "3"@,
        args[2] == "--runs"@,
        args[3] == crate::text::decimal(iterations as nat),
        args[4] == "--export-csv"@,
        args[5] == csv_path,
        args[6] == "--ignore-failure"@,
        args[7 + 18 * bi + 3 * ci] == "--command-name"@,
        args[8 + 18 * bi + 3 * ci] == configuration_name(ci) + " "@ + benchmark_name(bi),
        args[9 + 18 * bi + 3 * ci] == "ulimit -s unlimited && \""@ + executables[ci]@[bi]@
            + "\""@,
{
    assert(run_arguments_at(args, executables, bi, ci));
    reveal_strlit(" ");
    lemma_run_name(ci, bi);
    assert(" "@ =~= seq![' ']);
    let options = args.subrange(0, 7);
    assert(options[0] == args[0]);
    assert(options[1] == args[1]);
    assert(options[2] == args[2]);
    assert(options[3] == args[3]);
    assert(options[4] == args[4]);
    assert(options[5] == args[5]);
    assert(options[6] == args[6]);
}

/// The peak memory use is read from the line `Maximum resident set size
/// (kbytes): …` that `/usr/bin/time -v` prints, and the Roc executable from
/// the line that the Roc compiler prints after a blank line, indented by
/// four spaces; the executable lies under the directory that holds the
/// benchmarks directory.
pub proof fn lemma_reports_read_from_their_lines(
    time_output: Seq<char>,
    benchmarks_path: Seq<char>,
    build_stdout: Seq<char>,
)
    ensures
        reported_megabytes(time_output) == match regex_capture(
            "Maximum resident set size \\(kbytes\\): (.*)"@,
            time_output,
            1,
        ) {
            Some(kbytes) => megabytes_text(kbytes),
            None => None,
        },
        roc_executable_path(benchmarks_path, build_stdout) == match (
            regex_capture("\n\n    (.*)"@, build_stdout, 1),
            spec_parent(benchmarks_path),
        ) {
            (Some(relative), Some(base)) => Some(spec_join_path(base, relative)),
            _ => None,
        },
{
}

/// A memory use of `v` kilobytes is `m` whole megabytes, where `1024 * m`
/// is the multiple of 1024 nearest to `v` on the side of zero.
pub proof fn lemma_megabytes_round_toward_zero(kbytes: Seq<char>, m: int)
    requires
        spec_parse_i32(kbytes) is Some,
        ({
            let v = spec_parse_i32(kbytes)->0 as int;
            if v >= 0 {
                1024 * m <= v < 1024 * m + 1024
            } else {
                1024 * m - 1024 < v <= 1024 * m
            }
        }),
    ensures
        megabytes_text(kbytes) == Some(signed_decimal(m)),
{
    let v = spec_parse_i32(kbytes)->0 as int;
    if v >= 0 {
        assert(v / 1024 == m) by (nonlinear_arith)
            requires
                1024 * m <= v < 1024 * m + 1024,
        ;
    } else {
        assert((-v) / 1024 == -m) by (nonlinear_arith)
            requires
                1024 * m - 1024 < v <= 1024 * m,
        ;
    }
}

} // verus!
