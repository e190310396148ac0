//! Static and dynamic reference-counting statistics: every benchmark is run
//! by the Roc compiler of every configuration with its IR printed after
//! reference counting; the printed IR and the runtime counters are read
//! back, and two CSV tables are made of them.
use vstd::prelude::*;
use vstd::string::StringExecFns;

use crate::pattern::{capture_group, count_matches, regex_capture, regex_match_count};
use crate::roc_configuration::{specialises_drops, uses_perceus, RocConfiguration};
use crate::runtime_performance::{lemma_join_relative_injective, lemma_remove_slashes_identity};
use crate::text::{
    concat2, concat3, decimal, join_path, parse_u64, remove_slashes, spec_join_path,
    spec_parse_u64, strip_slashes, texts, u64_to_decimal,
};

verus! {

/// The number of Roc configurations that are compared.
pub const ROC_CONFIGURATION_COUNT: usize = 4;

/// The number of benchmark programs.
pub const PROGRAM_COUNT: usize = 5;

/// A Roc configuration: its display name and how the compiler is built.
#[derive(Clone, Copy)]
pub struct Configuration {
    pub name: &'static str,
    pub configuration: RocConfiguration,
}

/// A benchmark program and its Roc source.
#[derive(Clone, Copy)]
pub struct Benchmark {
    pub name: &'static str,
    pub path: &'static str,
}

/// The name of configuration `ci`.
pub open spec fn configuration_name(ci: int) -> Seq<char> {
    if ci == 0 {
        "Beans"@
    } else if ci == 1 {
        "Beans Specialized"@
    } else if ci == 2 {
        "Perceus"@
    } else {
        "Perceus Specialized"@
    }
}

/// How the compiler of configuration `ci` is built.
pub open spec fn configuration_kind(ci: int) -> RocConfiguration {
    if ci == 0 {
        RocConfiguration::Beans
    } else if ci == 1 {
        RocConfiguration::BeansSpecialisation
    } else if ci == 2 {
        RocConfiguration::Perceus
    } else {
        RocConfiguration::PerceusSpecialisation
    }
}

/// The name of benchmark `bi`.
pub open spec fn benchmark_name(bi: int) -> Seq<char> {
    if bi == 0 {
        "Deriv"@
    } else if bi == 1 {
        "NQueens"@
    } else if bi == 2 {
        "CFold"@
    } else if bi == 3 {
        "RBTree"@
    } else {
        "RBTreeCk"@
    }
}

/// The Roc source of benchmark `bi`, relative to the benchmarks directory.
pub open spec fn benchmark_path(bi: int) -> Seq<char> {
    if bi == 0 {
        "roc/Deriv.roc"@
    } else if bi == 1 {
        "roc/NQueens.roc"@
    } else if bi == 2 {
        "roc/CFold.roc"@
    } else if bi == 3 {
        "roc/RBTree.roc"@
    } else {
        "roc/RBTreeCk.roc"@
    }
}

/// Configuration `ci` of the comparison.
pub fn configuration(ci: usize) -> (c: Configuration)
    requires
        ci < ROC_CONFIGURATION_COUNT,
    ensures
        c.name@ == configuration_name(ci as int),
        c.configuration == configuration_kind(ci as int),
{
    if ci == 0 {
        Configuration { name: "Beans", configuration: RocConfiguration::Beans }
    } else if ci == 1 {
        Configuration {
            name: "Beans Specialized",
            configuration: RocConfiguration::BeansSpecialisation,
        }
    } else if ci == 2 {
        Configuration { name: "Perceus", configuration: RocConfiguration::Perceus }
    } else {
        Configuration {
            name: "Perceus Specialized",
            configuration: RocConfiguration::PerceusSpecialisation,
        }
    }
}

/// Benchmark program `bi`.
pub fn benchmark(bi: usize) -> (b: Benchmark)
    requires
        bi < PROGRAM_COUNT,
    ensures
        b.name@ == benchmark_name(bi as int),
        b.path@ == benchmark_path(bi as int),
{
    if bi == 0 {
        Benchmark { name: "Deriv", path: "roc/Deriv.roc" }
    } else if bi == 1 {
        Benchmark { name: "NQueens", path: "roc/NQueens.roc" }
    } else if bi == 2 {
        Benchmark { name: "CFold", path: "roc/CFold.roc" }
    } else if bi == 3 {
        Benchmark { name: "RBTree", path: "roc/RBTree.roc" }
    } else {
        Benchmark { name: "RBTreeCk", path: "roc/RBTreeCk.roc" }
    }
}

/// The shell script that runs benchmark `bi` through the compiler built from
/// the current source tree, with an unlimited stack.
pub open spec fn run_script(benchmarks_path: Seq<char>, bi: int) -> Seq<char> {
    "ulimit -s unlimited && cargo run -- run --optimize --debug --linker=legacy "@
        + spec_join_path(benchmarks_path, benchmark_path(bi))
}

/// The file, under `output_path`, that keeps the IR printed for benchmark
/// `bi` under configuration `ci`.
pub open spec fn ir_dump_path(output_path: Seq<char>, ci: int, bi: int) -> Seq<char> {
    spec_join_path(
        output_path,
        remove_slashes(configuration_name(ci)) + "-"@ + remove_slashes(benchmark_name(bi))
            + ".txt"@,
    )
}

/// The shell script that runs benchmark `bi`.
pub fn benchmark_run_script(benchmarks_path: &str, bi: usize) -> (script: String)
    requires
        bi < PROGRAM_COUNT,
    ensures
        script@ == run_script(benchmarks_path@, bi as int),
{
    let source = join_path(benchmarks_path, benchmark(bi).path);
    concat2(
        "ulimit -s unlimited && cargo run -- run --optimize --debug --linker=legacy ",
        source.as_str(),
    )
}

/// Where the IR printed for benchmark `bi` under configuration `ci` is kept.
pub fn ir_dump_file(output_path: &str, ci: usize, bi: usize) -> (path: String)
    requires
        ci < ROC_CONFIGURATION_COUNT,
        bi < PROGRAM_COUNT,
    ensures
        path@ == ir_dump_path(output_path@, ci as int, bi as int),
{
    let configuration_part = strip_slashes(configuration(ci).name);
    let benchmark_part = strip_slashes(benchmark(bi).name);
    let mut name = concat3(configuration_part.as_str(), "-", benchmark_part.as_str());
    name.append(".txt");
    join_path(output_path, name.as_str())
}

// ---------------------------------------------------------------------------
// Reading the compiler's output
// ---------------------------------------------------------------------------

/// The reference-counting operations of one run: how many of each the
/// printed IR holds, and how many of each were executed.
#[derive(Debug, Clone, Copy)]
pub struct RcStatistics {
    pub static_incs: usize,
    pub static_decs: usize,
    pub static_resets: usize,
    pub static_reuses: usize,
    pub dynamic_incs: u64,
    pub dynamic_decs: u64,
    pub dynamic_allocs: u64,
    pub dynamic_deallocs: u64,
}

/// An increment in the printed IR.
pub open spec fn static_inc_pattern() -> Seq<char> {
    "inc `.*`;"@
}

/// A decrement in the printed IR.
pub open spec fn static_dec_pattern() -> Seq<char> {
    "dec(ref)? `.*`;"@
}

/// A reset in the printed IR.
pub open spec fn static_reset_pattern() -> Seq<char> {
    "Reset(Ref)? \\{.*\\};"@
}

/// A reuse in the printed IR.
pub open spec fn static_reuse_pattern() -> Seq<char> {
    "Reuse `.*`;"@
}

/// The executed increments reported by the runtime.
pub open spec fn dynamic_inc_pattern() -> Seq<char> {
    "inc: (\\d*)"@
}

/// The executed decrements reported by the runtime.
pub open spec fn dynamic_dec_pattern() -> Seq<char> {
    "dec: (\\d*)"@
}

/// The allocations reported by the runtime.
pub open spec fn dynamic_alloc_pattern() -> Seq<char> {
    "alloc: (\\d*)"@
}

/// The deallocations reported by the runtime.
pub open spec fn dynamic_dealloc_pattern() -> Seq<char> {
    "free: (\\d*)"@
}

/// The number that the first match of `pattern` captures in `output`.
pub open spec fn captured_number(pattern: Seq<char>, output: Seq<char>) -> Option<u64> {
    match regex_capture(pattern, output, 1) {
        Some(text) => spec_parse_u64(text),
        None => None,
    }
}

/// The statistics of one run, read from what the compiler printed; `None`
/// where a count or a runtime counter is missing.
pub open spec fn spec_rc_statistics(output: Seq<char>) -> Option<RcStatistics> {
    let incs = regex_match_count(static_inc_pattern(), output);
    let decs = regex_match_count(static_dec_pattern(), output);
    let resets = regex_match_count(static_reset_pattern(), output);
    let reuses = regex_match_count(static_reuse_pattern(), output);
    let dyn_incs = captured_number(dynamic_inc_pattern(), output);
    let dyn_decs = captured_number(dynamic_dec_pattern(), output);
    let allocs = captured_number(dynamic_alloc_pattern(), output);
    let deallocs = captured_number(dynamic_dealloc_pattern(), output);
    if incs is Some && decs is Some && resets is Some && reuses is Some && dyn_incs is Some
        && dyn_decs is Some && allocs is Some && deallocs is Some {
        Some(
            RcStatistics {
                static_incs: incs->0,
                static_decs: decs->0,
                static_resets: resets->0,
                static_reuses: reuses->0,
                dynamic_incs: dyn_incs->0,
                dynamic_decs: dyn_decs->0,
                dynamic_allocs: allocs->0,
                dynamic_deallocs: deallocs->0,
            },
        )
    } else {
        None
    }
}

/// The number that the first match of `pattern` captures in `output`.
pub fn captured_u64(pattern: &str, output: &str) -> (n: Option<u64>)
    ensures
        n == captured_number(pattern@, output@),
{
    match capture_group(pattern, output, 1) {
        Some(text) => parse_u64(text.as_str()),
        None => None,
    }
}

/// Reads the statistics of one run from what the compiler printed.
pub fn rc_statistics(output: &str) -> (stats: Option<RcStatistics>)
    ensures
        stats == spec_rc_statistics(output@),
{
    let incs = count_matches("inc `.*`;", output);
    let decs = count_matches("dec(ref)? `.*`;", output);
    let resets = count_matches("Reset(Ref)? \\{.*\\};", output);
    let reuses = count_matches("Reuse `.*`;", output);
    let dyn_incs = captured_u64("inc: (\\d*)", output);
    let dyn_decs = captured_u64("dec: (\\d*)", output);
    let allocs = captured_u64("alloc: (\\d*)", output);
    let deallocs = captured_u64("free: (\\d*)", output);
    match (incs, decs, resets, reuses, dyn_incs, dyn_decs, allocs, deallocs) {
        (
            Some(static_incs),
            Some(static_decs),
            Some(static_resets),
            Some(static_reuses),
            Some(dynamic_incs),
            Some(dynamic_decs),
            Some(dynamic_allocs),
            Some(dynamic_deallocs),
        ) => Some(
            RcStatistics {
                static_incs,
                static_decs,
                static_resets,
                static_reuses,
                dynamic_incs,
                dynamic_decs,
                dynamic_allocs,
                dynamic_deallocs,
            },
        ),
        _ => None,
    }
}

// ---------------------------------------------------------------------------
// The CSV tables
// ---------------------------------------------------------------------------

/// A row that starts with `first` and continues with the cells of the
/// groups `0..count`, group after group.
pub open spec fn grouped_row(
    first: Seq<char>,
    group: spec_fn(int) -> Seq<Seq<char>>,
    count: nat,
) -> Seq<Seq<char>>
    decreases count,
{
    if count == 0 {
        seq![first]
    } else {
        grouped_row(first, group, (count - 1) as nat) + group(count - 1)
    }
}

/// The header group of benchmark `bi`: its name over its four columns.
pub open spec fn name_group(bi: int) -> Seq<Seq<char>> {
    seq![benchmark_name(bi), ""@, ""@, ""@]
}

/// The column names under each benchmark of the static table.
pub open spec fn static_columns() -> Seq<Seq<char>> {
    seq!["dup"@, "drop"@, "reset"@, "reuse"@]
}

/// The column names under each benchmark of the dynamic table.
pub open spec fn dynamic_columns() -> Seq<Seq<char>> {
    seq!["dup"@, "drop"@, "alloc"@, "dealloc"@]
}

/// The static cells of one run: increments, decrements, resets, reuses.
pub open spec fn static_cells(stats: RcStatistics) -> Seq<Seq<char>> {
    seq![
        decimal(stats.static_incs as nat),
        decimal(stats.static_decs as nat),
        decimal(stats.static_resets as nat),
        decimal(stats.static_reuses as nat),
    ]
}

/// The dynamic cells of one run: increments, decrements, allocations,
/// deallocations.
pub open spec fn dynamic_cells(stats: RcStatistics) -> Seq<Seq<char>> {
    seq![
        decimal(stats.dynamic_incs as nat),
        decimal(stats.dynamic_decs as nat),
        decimal(stats.dynamic_allocs as nat),
        decimal(stats.dynamic_deallocs as nat),
    ]
}

/// `results` holds the statistics of every run: one row per configuration
/// and one entry per benchmark.
pub open spec fn is_results_table(results: Seq<Vec<RcStatistics>>) -> bool {
    &&& results.len() == ROC_CONFIGURATION_COUNT
    &&& forall|ci: int| 0 <= ci < ROC_CONFIGURATION_COUNT ==> #[trigger] results[ci]@.len()
        == PROGRAM_COUNT
}

/// The title of the static (`dynamic == false`) or dynamic table.
pub open spec fn table_title(dynamic: bool) -> Seq<char> {
    if dynamic {
        "Dynamic"@
    } else {
        "Static"@
    }
}

/// The column names under each benchmark of the static or dynamic table.
pub open spec fn table_columns(dynamic: bool) -> Seq<Seq<char>> {
    if dynamic {
        dynamic_columns()
    } else {
        static_columns()
    }
}

/// The cells of one run in the static or dynamic table.
pub open spec fn run_cells(dynamic: bool, stats: RcStatistics) -> Seq<Seq<char>> {
    if dynamic {
        dynamic_cells(stats)
    } else {
        static_cells(stats)
    }
}

/// `rows` is the static (`dynamic == false`) or dynamic CSV table of
/// `results`: a title row naming the benchmarks, a row naming the columns
/// under each benchmark, then for each configuration its name and the
/// cells of its runs.
pub open spec fn is_statistics_table(
    rows: Seq<Vec<String>>,
    dynamic: bool,
    results: Seq<Vec<RcStatistics>>,
) -> bool {
    &&& rows.len() == 2 + ROC_CONFIGURATION_COUNT
    &&& texts(rows[0]@) == grouped_row(
        table_title(dynamic),
        |bi: int| name_group(bi),
        PROGRAM_COUNT as nat,
    )
    &&& texts(rows[1]@) == grouped_row(""@, |bi: int| table_columns(dynamic), PROGRAM_COUNT as nat)
    &&& forall|ci: int|
        0 <= ci < ROC_CONFIGURATION_COUNT ==> texts(#[trigger] rows[2 + ci]@) == grouped_row(
            configuration_name(ci),
            |bi: int| run_cells(dynamic, results[ci]@[bi]),
            PROGRAM_COUNT as nat,
        )
}

/// Appends the cells of `group` to `row`.
fn append_group(row: &mut Vec<String>, group: Vec<String>)
    ensures
        texts(final(row)@) == texts(old(row)@) + texts(group@),
{
    let mut i: usize = 0;
    let ghost start = texts(row@);
    while i < group.len()
        invariant
            i <= group@.len(),
            texts(row@) == start + texts(group@).subrange(0, i as int),
        decreases group@.len() - i,
    {
        let ghost before = texts(row@);
        row.push(group[i].clone());
        assert(texts(row@) =~= before.push(group@[i as int]@));
        assert(texts(group@).subrange(0, i + 1) =~= texts(group@).subrange(0, i as int).push(
            group@[i as int]@,
        ));
        i = i + 1;
    }
    assert(texts(group@).subrange(0, group@.len() as int) =~= texts(group@));
}

/// Four pieces of text as a group of cells.
fn group_of(a: String, b: String, c: String, d: String) -> (group: Vec<String>)
    ensures
        texts(group@) == seq![a@, b@, c@, d@],
{
    let mut group: Vec<String> = Vec::new();
    group.push(a);
    group.push(b);
    group.push(c);
    group.push(d);
    assert(texts(group@) =~= seq![a@, b@, c@, d@]);
    group
}

/// The title row: `title`, then each benchmark's name over its four
/// columns.
fn title_row(title: &str) -> (row: Vec<String>)
    ensures
        texts(row@) == grouped_row(title@, |bi: int| name_group(bi), PROGRAM_COUNT as nat),
{
    let ghost group = |bi: int| name_group(bi);
    let mut row: Vec<String> = Vec::new();
    row.push(String::from_str(title));
    assert(texts(row@) =~= grouped_row(title@, group, 0));
    let mut bi: usize = 0;
    while bi < PROGRAM_COUNT
        invariant
            bi <= PROGRAM_COUNT,
            group == (|bi: int| name_group(bi)),
            texts(row@) == grouped_row(title@, group, bi as nat),
        decreases PROGRAM_COUNT - bi,
    {
        let cells = group_of(
            String::from_str(benchmark(bi).name),
            String::from_str(""),
            String::from_str(""),
            String::from_str(""),
        );
        append_group(&mut row, cells);
        bi = bi + 1;
    }
    row
}

/// The row naming the columns `a`, `b`, `c`, `d` under every benchmark.
fn columns_row(a: &str, b: &str, c: &str, d: &str) -> (row: Vec<String>)
    ensures
        texts(row@) == grouped_row(""@, |bi: int| seq![a@, b@, c@, d@], PROGRAM_COUNT as nat),
{
    let ghost group = |bi: int| seq![a@, b@, c@, d@];
    let mut row: Vec<String> = Vec::new();
    row.push(String::from_str(""));
    assert(texts(row@) =~= grouped_row(""@, group, 0));
    let mut bi: usize = 0;
    while bi < PROGRAM_COUNT
        invariant
            bi <= PROGRAM_COUNT,
            group == (|bi: int| seq![a@, b@, c@, d@]),
            texts(row@) == grouped_row(""@, group, bi as nat),
        decreases PROGRAM_COUNT - bi,
    {
        let cells = group_of(
            String::from_str(a),
            String::from_str(b),
            String::from_str(c),
            String::from_str(d),
        );
        append_group(&mut row, cells);
        bi = bi + 1;
    }
    row
}

/// The row of configuration `ci`: its name, then the cells of each run,
/// static (`dynamic == false`) or dynamic.
fn results_row(ci: usize, runs: &Vec<RcStatistics>, dynamic: bool) -> (row: Vec<String>)
    requires
        ci < ROC_CONFIGURATION_COUNT,
        runs@.len() == PROGRAM_COUNT,
    ensures
        texts(row@) == grouped_row(
            configuration_name(ci as int),
            |bi: int| run_cells(dynamic, runs@[bi]),
            PROGRAM_COUNT as nat,
        ),
{
    let ghost group = |bi: int| run_cells(dynamic, runs@[bi]);
    let mut row: Vec<String> = Vec::new();
    row.push(String::from_str(configuration(ci).name));
    assert(texts(row@) =~= grouped_row(configuration_name(ci as int), group, 0));
    let mut bi: usize = 0;
    while bi < PROGRAM_COUNT
        invariant
            bi <= PROGRAM_COUNT,
            ci < ROC_CONFIGURATION_COUNT,
            runs@.len() == PROGRAM_COUNT,
            group == (|bi: int| run_cells(dynamic, runs@[bi])),
            texts(row@) == grouped_row(configuration_name(ci as int), group, bi as nat),
        decreases PROGRAM_COUNT - bi,
    {
        let stats = runs[bi];
        let cells = if dynamic {
            group_of(
                u64_to_decimal(stats.dynamic_incs),
                u64_to_decimal(stats.dynamic_decs),
                u64_to_decimal(stats.dynamic_allocs),
                u64_to_decimal(stats.dynamic_deallocs),
            )
        } else {
            group_of(
                u64_to_decimal(stats.static_incs as u64),
                u64_to_decimal(stats.static_decs as u64),
                u64_to_decimal(stats.static_resets as u64),
                u64_to_decimal(stats.static_reuses as u64),
            )
        };
        append_group(&mut row, cells);
        bi = bi + 1;
    }
    row
}

/// The static (`dynamic == false`) or dynamic table of `results`.
fn statistics_table(dynamic: bool, results: &Vec<Vec<RcStatistics>>) -> (rows: Vec<Vec<String>>)
    requires
        is_results_table(results@),
    ensures
        is_statistics_table(rows@, dynamic, results@),
{
    let mut rows: Vec<Vec<String>> = Vec::new();
    if dynamic {
        rows.push(title_row("Dynamic"));
        let columns = columns_row("dup", "drop", "alloc", "dealloc");
        assert((|bi: int| seq!["dup"@, "drop"@, "alloc"@, "dealloc"@]) =~= (|bi: int|
            table_columns(dynamic)));
        rows.push(columns);
    } else {
        rows.push(title_row("Static"));
        let columns = columns_row("dup", "drop", "reset", "reuse");
        assert((|bi: int| seq!["dup"@, "drop"@, "reset"@, "reuse"@]) =~= (|bi: int|
            table_columns(dynamic)));
        rows.push(columns);
    }
    let mut ci: usize = 0;
    while ci < ROC_CONFIGURATION_COUNT
        invariant
            ci <= ROC_CONFIGURATION_COUNT,
            is_results_table(results@),
            rows@.len() == 2 + ci,
            texts(rows@[0]@) == grouped_row(
                table_title(dynamic),
                |bi: int| name_group(bi),
                PROGRAM_COUNT as nat,
            ),
            texts(rows@[1]@) == grouped_row(
                ""@,
                |bi: int| table_columns(dynamic),
                PROGRAM_COUNT as nat,
            ),
            forall|cj: int|
                0 <= cj < ci ==> texts(#[trigger] rows@[2 + cj]@) == grouped_row(
                    configuration_name(cj),
                    |bi: int| run_cells(dynamic, results@[cj]@[bi]),
                    PROGRAM_COUNT as nat,
                ),
        decreases ROC_CONFIGURATION_COUNT - ci,
    {
        assert(results@[ci as int]@.len() == PROGRAM_COUNT);
        let row = results_row(ci, &results[ci], dynamic);
        rows.push(row);
        ci = ci + 1;
    }
    rows
}

/// The CSV table of the static counts: for each configuration, the
/// increments, decrements, resets and reuses in the IR of each benchmark.
pub fn static_csv_records(results: &Vec<Vec<RcStatistics>>) -> (rows: Vec<Vec<String>>)
    requires
        is_results_table(results@),
    ensures
        is_statistics_table(rows@, false, results@),
{
    statistics_table(false, results)
}

/// The CSV table of the dynamic counts: for each configuration, the
/// increments, decrements, allocations and deallocations executed by each
/// benchmark.
pub fn dynamic_csv_records(results: &Vec<Vec<RcStatistics>>) -> (rows: Vec<Vec<String>>)
    requires
        is_results_table(results@),
    ensures
        is_statistics_table(rows@, true, results@),
{
    statistics_table(true, results)
}

// ---------------------------------------------------------------------------
// Laws
// ---------------------------------------------------------------------------

/// Each configuration is built as its name says: with drop specialisation
/// exactly when its name ends in ` Specialized`, and with Perceus exactly
/// when its name starts with `Perceus`; so no two configurations are built
/// alike.
pub proof fn lemma_configuration_kind_follows_name(ci: int, cj: int)
    requires
        0 <= ci < ROC_CONFIGURATION_COUNT,
        0 <= cj < ROC_CONFIGURATION_COUNT,
    ensures
        specialises_drops(configuration_kind(ci)) <==> " Specialized"@.is_suffix_of(
            configuration_name(ci),
        ),
        uses_perceus(configuration_kind(ci)) <==> "Perceus"@.is_prefix_of(
            configuration_name(ci),
        ),
        ci != cj ==> configuration_kind(ci) != configuration_kind(cj),
{
    reveal_strlit("Beans");
    reveal_strlit("Beans Specialized");
    reveal_strlit("Perceus");
    reveal_strlit("Perceus Specialized");
    reveal_strlit(" Specialized");
    let suffix = " Specialized"@;
    let perceus = "Perceus"@;
    assert(suffix.len() == 12);
    assert(perceus.len() == 7);
    assert("Beans"@.len() == 5);
    assert("Beans Specialized"@.len() == 17);
    assert("Perceus Specialized"@.len() == 19);
    assert("Beans Specialized"@.subrange(5, 17) =~= suffix);
    assert("Perceus Specialized"@.subrange(7, 19) =~= suffix);
    assert("Perceus"@.subrange(0, 7) =~= perceus);
    assert("Perceus Specialized"@.subrange(0, 7) =~= perceus);
    assert("Beans Specialized"@.subrange(0, 7)[0] != perceus[0]);
}

/// Each benchmark is run from a Roc source of its own, named after it:
/// `roc/<name>.roc`, and no two benchmarks share a name.
pub proof fn lemma_benchmark_source_follows_name(bi: int, bj: int)
    requires
        0 <= bi < PROGRAM_COUNT,
        0 <= bj < PROGRAM_COUNT,
    ensures
        benchmark_path(bi) == "roc/"@ + benchmark_name(bi) + ".roc"@,
        bi != bj ==> benchmark_name(bi) != benchmark_name(bj),
        bi != bj ==> benchmark_path(bi) != benchmark_path(bj),
{
    reveal_strlit("roc/");
    reveal_strlit(".roc");
    reveal_strlit("Deriv");
    reveal_strlit("NQueens");
    reveal_strlit("CFold");
    reveal_strlit("RBTree");
    reveal_strlit("RBTreeCk");
    reveal_strlit("roc/Deriv.roc");
    reveal_strlit("roc/NQueens.roc");
    reveal_strlit("roc/CFold.roc");
    reveal_strlit("roc/RBTree.roc");
    reveal_strlit("roc/RBTreeCk.roc");
    assert("roc/Deriv.roc"@ =~= "roc/"@ + "Deriv"@ + ".roc"@);
    assert("roc/NQueens.roc"@ =~= "roc/"@ + "NQueens"@ + ".roc"@);
    assert("roc/CFold.roc"@ =~= "roc/"@ + "CFold"@ + ".roc"@);
    assert("roc/RBTree.roc"@ =~= "roc/"@ + "RBTree"@ + ".roc"@);
    assert("roc/RBTreeCk.roc"@ =~= "roc/"@ + "RBTreeCk"@ + ".roc"@);
    assert("Deriv"@[0] != "CFold"@[0]);
    assert("roc/Deriv.roc"@[4] != "roc/CFold.roc"@[4]);
    assert("Deriv"@.len() == 5);
    assert("NQueens"@.len() == 7);
    assert("CFold"@.len() == 5);
    assert("RBTree"@.len() == 6);
    assert("RBTreeCk"@.len() == 8);
    assert("roc/Deriv.roc"@.len() == 13);
    assert("roc/NQueens.roc"@.len() == 15);
    assert("roc/CFold.roc"@.len() == 13);
    assert("roc/RBTree.roc"@.len() == 14);
    assert("roc/RBTreeCk.roc"@.len() == 16);
}

/// Two different benchmarks are run by two different scripts, whatever the
/// benchmarks directory: every benchmark is run, each once.
pub proof fn lemma_run_scripts_distinct(benchmarks_path: Seq<char>, bi: int, bj: int)
    requires
        0 <= bi < PROGRAM_COUNT,
        0 <= bj < PROGRAM_COUNT,
        run_script(benchmarks_path, bi) == run_script(benchmarks_path, bj),
    ensures
        bi == bj,
{
    lemma_benchmark_source_follows_name(bi, bj);
    lemma_benchmark_source_follows_name(bj, bi);
    reveal_strlit("roc/");
    let prefix = "ulimit -s unlimited && cargo run -- run --optimize --debug --linker=legacy "@;
    let x = spec_join_path(benchmarks_path, benchmark_path(bi));
    let y = spec_join_path(benchmarks_path, benchmark_path(bj));
    assert((prefix + x).subrange(prefix.len() as int, (prefix + x).len() as int) =~= x);
    assert((prefix + y).subrange(prefix.len() as int, (prefix + y).len() as int) =~= y);
    assert(benchmark_path(bi)[0] == 'r');
    assert(benchmark_path(bj)[0] == 'r');
    lemma_join_relative_injective(benchmarks_path, benchmark_path(bi), benchmark_path(bj));
}

/// The statistics of a run are read from the compiler's output as follows:
/// the static counts are the numbers of matches of an increment
/// (`inc `…`;`), of a decrement (`dec `…`;` or `decref `…`;`), of a reset
/// and of a reuse in the printed IR; the dynamic counts are the numbers the
/// runtime printed after `inc: `, `dec: `, `alloc: ` and `free: `. They are
/// there exactly when all eight were found.
pub proof fn lemma_rc_statistics_read_each_count(output: Seq<char>)
    ensures
        spec_rc_statistics(output) is Some <==> {
            &&& regex_match_count("inc `.*`;"@, output) is Some
            &&& regex_match_count("dec(ref)? `.*`;"@, output) is Some
            &&& regex_match_count("Reset(Ref)? \\{.*\\};"@, output) is Some
            &&& regex_match_count("Reuse `.*`;"@, output) is Some
            &&& captured_number("inc: (\\d*)"@, output) is Some
            &&& captured_number("dec: (\\d*)"@, output) is Some
            &&& captured_number("alloc: (\\d*)"@, output) is Some
            &&& captured_number("free: (\\d*)"@, output) is Some
        },
        spec_rc_statistics(output) matches Some(s) ==> {
            &&& regex_match_count("inc `.*`;"@, output) == Some(s.static_incs)
            &&& regex_match_count("dec(ref)? `.*`;"@, output) == Some(s.static_decs)
            &&& regex_match_count("Reset(Ref)? \\{.*\\};"@, output) == Some(s.static_resets)
            &&& regex_match_count("Reuse `.*`;"@, output) == Some(s.static_reuses)
            &&& captured_number("inc: (\\d*)"@, output) == Some(s.dynamic_incs)
            &&& captured_number("dec: (\\d*)"@, output) == Some(s.dynamic_decs)
            &&& captured_number("alloc: (\\d*)"@, output) == Some(s.dynamic_allocs)
            &&& captured_number("free: (\\d*)"@, output) == Some(s.dynamic_deallocs)
        },
{
}

proof fn lemma_grouped_row_len(
    first: Seq<char>,
    group: spec_fn(int) -> Seq<Seq<char>>,
    count: nat,
)
    requires
        forall|i: int| 0 <= i < count ==> #[trigger] group(i).len() == 4,
    ensures
        grouped_row(first, group, count).len() == 1 + 4 * count,
        grouped_row(first, group, count)[0] == first,
    decreases count,
{
    if count > 0 {
        lemma_grouped_row_len(first, group, (count - 1) as nat);
        assert(group(count - 1).len() == 4);
    }
}

proof fn lemma_grouped_row_cell(
    first: Seq<char>,
    group: spec_fn(int) -> Seq<Seq<char>>,
    count: nat,
    b: int,
    k: int,
)
    requires
        forall|i: int| 0 <= i < count ==> #[trigger] group(i).len() == 4,
        0 <= b < count,
        0 <= k < 4,
    ensures
        grouped_row(first, group, count)[1 + 4 * b + k] == group(b)[k],
    decreases count,
{
    lemma_grouped_row_len(first, group, (count - 1) as nat);
    assert(group(count - 1).len() == 4);
    if b < count - 1 {
        lemma_grouped_row_cell(first, group, (count - 1) as nat, b, k);
    }
}

/// Where each count stands in a statistics table: the title row names
/// benchmark `bi` over its first column; under each benchmark the column
/// `dup` holds the increments of the run, `drop` its decrements, then
/// `reset` and `reuse` its resets and reuses (static table) or `alloc` and
/// `dealloc` its allocations and deallocations (dynamic table); and the row
/// of configuration `ci` starts with its name and holds the counts of its
/// run of benchmark `bi`.
pub proof fn lemma_statistics_table_cells(
    rows: Seq<Vec<String>>,
    dynamic: bool,
    results: Seq<Vec<RcStatistics>>,
    ci: int,
    bi: int,
)
    requires
        is_statistics_table(rows, dynamic, results),
        0 <= ci < ROC_CONFIGURATION_COUNT,
        0 <= bi < PROGRAM_COUNT,
    ensures
        ({
            let title = texts(rows[0]@);
            let columns = texts(rows[1]@);
            let row = texts(rows[2 + ci]@);
            let run = results[ci]@[bi];
            &&& title[0] == (if dynamic {
                "Dynamic"@
            } else {
                "Static"@
            })
            &&& title[1 + 4 * bi] == benchmark_name(bi)
            &&& row[0] == configuration_name(ci)
            &&& columns[1 + 4 * bi] == "dup"@
            &&& columns[2 + 4 * bi] == "drop"@
            &&& columns[3 + 4 * bi] == (if dynamic {
                "alloc"@
            } else {
                "reset"@
            })
            &&& columns[4 + 4 * bi] == (if dynamic {
                "dealloc"@
            } else {
                "reuse"@
            })
            &&& row[1 + 4 * bi] == (if dynamic {
                decimal(run.dynamic_incs as nat)
            } else {
                decimal(run.static_incs as nat)
            })
            &&& row[2 + 4 * bi] == (if dynamic {
                decimal(run.dynamic_decs as nat)
            } else {
                decimal(run.static_decs as nat)
            })
            &&& row[3 + 4 * bi] == (if dynamic {
                decimal(run.dynamic_allocs as nat)
            } else {
                decimal(run.static_resets as nat)
            })
            &&& row[4 + 4 * bi] == (if dynamic {
                decimal(run.dynamic_deallocs as nat)
            } else {
                decimal(run.static_reuses as nat)
            })
        }),
{
    let names = |b: int| name_group(b);
    let columns = |b: int| table_columns(dynamic);
    let cells = |b: int| run_cells(dynamic, results[ci]@[b]);
    assert(texts(rows[2 + ci]@) == grouped_row(configuration_name(ci), cells, PROGRAM_COUNT as nat));
    assert forall|i: int| 0 <= i < PROGRAM_COUNT implies #[trigger] names(i).len() == 4 by {}
    assert forall|i: int| 0 <= i < PROGRAM_COUNT implies #[trigger] columns(i).len() == 4 by {}
    assert forall|i: int| 0 <= i < PROGRAM_COUNT implies #[trigger] cells(i).len() == 4 by {}
    lemma_grouped_row_len(table_title(dynamic), names, PROGRAM_COUNT as nat);
    lemma_grouped_row_len(configuration_name(ci), cells, PROGRAM_COUNT as nat);
    lemma_grouped_row_cell(table_title(dynamic), names, PROGRAM_COUNT as nat, bi, 0);
    lemma_grouped_row_cell(configuration_name(ci), cells, PROGRAM_COUNT as nat, bi, 0);
    lemma_grouped_row_cell(configuration_name(ci), cells, PROGRAM_COUNT as nat, bi, 1);
    lemma_grouped_row_cell(configuration_name(ci), cells, PROGRAM_COUNT as nat, bi, 2);
    lemma_grouped_row_cell(configuration_name(ci), cells, PROGRAM_COUNT as nat, bi, 3);
    lemma_grouped_row_cell(""@, columns, PROGRAM_COUNT as nat, bi, 0);
    lemma_grouped_row_cell(""@, columns, PROGRAM_COUNT as nat, bi, 1);
    lemma_grouped_row_cell(""@, columns, PROGRAM_COUNT as nat, bi, 2);
    lemma_grouped_row_cell(""@, columns, PROGRAM_COUNT as nat, bi, 3);
}

proof fn lemma_name_characters(ci: int, bi: int, cj: int)
    requires
        0 <= ci < ROC_CONFIGURATION_COUNT,
        0 <= cj < ROC_CONFIGURATION_COUNT,
        0 <= bi < PROGRAM_COUNT,
    ensures
        configuration_name(ci).len() > 0,
        forall|i: int|
            0 <= i < configuration_name(ci).len() ==> #[trigger] configuration_name(ci)[i] != '/'
                && configuration_name(ci)[i] != '-',
        forall|i: int| 0 <= i < benchmark_name(bi).len() ==> #[trigger] benchmark_name(bi)[i] != '/',
        ci != cj ==> configuration_name(ci) != configuration_name(cj),
{
    reveal_strlit("Beans");
    reveal_strlit("Beans Specialized");
    reveal_strlit("Perceus");
    reveal_strlit("Perceus Specialized");
    reveal_strlit("Deriv");
    reveal_strlit("NQueens");
    reveal_strlit("CFold");
    reveal_strlit("RBTree");
    reveal_strlit("RBTreeCk");
    assert("Beans"@.len() == 5);
    assert("Beans Specialized"@.len() == 17);
    assert("Perceus"@.len() == 7);
    assert("Perceus Specialized"@.len() == 19);
}

proof fn lemma_split_at_first_dash(a: Seq<char>, b: Seq<char>, a2: Seq<char>, b2: Seq<char>)
    requires
        forall|i: int| 0 <= i < a.len() ==> a[i] != '-',
        forall|i: int| 0 <= i < a2.len() ==> a2[i] != '-',
        a + seq!['-'] + b == a2 + seq!['-'] + b2,
    ensures
        a == a2,
        b == b2,
{
    let s = a + seq!['-'] + b;
    let s2 = a2 + seq!['-'] + b2;
    if a.len() < a2.len() {
        let k = a.len() as int;
        assert(s[k] == '-');
        assert(s2[k] == a2[k]);
    } else if a2.len() < a.len() {
        let k = a2.len() as int;
        assert(s2[k] == '-');
        assert(s[k] == a[k]);
    }
    assert(s.subrange(0, a.len() as int) =~= a);
    assert(s2.subrange(0, a2.len() as int) =~= a2);
    assert(s.subrange(a.len() as int + 1, s.len() as int) =~= b);
    assert(s2.subrange(a2.len() as int + 1, s2.len() as int) =~= b2);
}

/// Each run keeps its printed IR in a file of its own: two different
/// (configuration, benchmark) pairs never share a dump file, whatever the
/// output directory.
pub proof fn lemma_ir_dump_files_distinct(
    output_path: Seq<char>,
    ci: int,
    bi: int,
    cj: int,
    bj: int,
)
    requires
        0 <= ci < ROC_CONFIGURATION_COUNT,
        0 <= cj < ROC_CONFIGURATION_COUNT,
        0 <= bi < PROGRAM_COUNT,
        0 <= bj < PROGRAM_COUNT,
        ir_dump_path(output_path, ci, bi) == ir_dump_path(output_path, cj, bj),
    ensures
        ci == cj,
        bi == bj,
{
    lemma_name_characters(ci, bi, cj);
    lemma_name_characters(cj, bj, ci);
    lemma_benchmark_source_follows_name(bi, bj);
    lemma_remove_slashes_identity(configuration_name(ci));
    lemma_remove_slashes_identity(configuration_name(cj));
    lemma_remove_slashes_identity(benchmark_name(bi));
    lemma_remove_slashes_identity(benchmark_name(bj));
    reveal_strlit("-");
    reveal_strlit(".txt");
    assert("-"@ =~= seq!['-']);
    let x = configuration_name(ci) + "-"@ + benchmark_name(bi) + ".txt"@;
    let y = configuration_name(cj) + "-"@ + benchmark_name(bj) + ".txt"@;
    assert(x[0] == configuration_name(ci)[0]);
    assert(y[0] == configuration_name(cj)[0]);
    lemma_join_relative_injective(output_path, x, y);
    let bx = benchmark_name(bi) + ".txt"@;
    let by = benchmark_name(bj) + ".txt"@;
    assert(x =~= configuration_name(ci) + seq!['-'] + bx);
    assert(y =~= configuration_name(cj) + seq!['-'] + by);
    lemma_split_at_first_dash(configuration_name(ci), bx, configuration_name(cj), by);
    assert(bx.subrange(0, benchmark_name(bi).len() as int) =~= benchmark_name(bi));
    assert(by.subrange(0, benchmark_name(bj).len() as int) =~= benchmark_name(bj));
}

/// Benchmark `bi` is run, optimised, with the IR printed and an unlimited
/// stack, by the compiler built from the current tree, on the Roc source
/// `roc/<name>.roc` under the benchmarks directory.
pub proof fn lemma_run_script_runs_the_benchmark(benchmarks_path: Seq<char>, bi: int)
    requires
        0 <= bi < PROGRAM_COUNT,
    ensures
        run_script(benchmarks_path, bi)
            == "ulimit -s unlimited && cargo run -- run --optimize --debug --linker=legacy "@
            + spec_join_path(benchmarks_path, "roc/"@ + benchmark_name(bi) + ".roc"@),
{
    lemma_benchmark_source_follows_name(bi, bi);
}

} // verus!
