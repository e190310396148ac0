use bencher::build_performance::{
    benchmark_run_script, dynamic_csv_records, ir_dump_file, rc_statistics, static_csv_records,
    RcStatistics, PROGRAM_COUNT, ROC_CONFIGURATION_COUNT,
};

const IR_OUTPUT: &str = "procedure Test.0 ():\n    inc `#UserApp.x`;\n    dec `#UserApp.y`;\n    decref `#UserApp.z`;\n    let Test.1 : [] = Reset { symbol: x, id: 1 };\n    let Test.2 : [] = ResetRef { symbol: y, id: 2 };\n    let Test.3 : [] = Reuse `x`;\n    inc `#UserApp.w`;\ninc: 12\ndec: 10\nalloc: 3\nfree: 3\n";

#[test]
fn run_script_of_a_benchmark() {
    assert_eq!(
        benchmark_run_script("/bench/benchmarks/", 2),
        "ulimit -s unlimited && cargo run -- run --optimize --debug --linker=legacy /bench/benchmarks/roc/CFold.roc"
    );
}

#[test]
fn ir_dump_files() {
    assert_eq!(ir_dump_file("/bench/results/ir/", 1, 0), "/bench/results/ir/Beans Specialized-Deriv.txt");
    assert_eq!(ir_dump_file("out", 3, 4), "out/Perceus Specialized-RBTreeCk.txt");
}

#[test]
fn statistics_of_a_run() {
    let stats = rc_statistics(IR_OUTPUT).expect("statistics");
    assert_eq!(stats.static_incs, 2);
    assert_eq!(stats.static_decs, 2);
    assert_eq!(stats.static_resets, 2);
    assert_eq!(stats.static_reuses, 1);
    assert_eq!(stats.dynamic_incs, 12);
    assert_eq!(stats.dynamic_decs, 10);
    assert_eq!(stats.dynamic_allocs, 3);
    assert_eq!(stats.dynamic_deallocs, 3);
}

#[test]
fn statistics_need_every_counter() {
    assert!(rc_statistics("inc: 1\ndec: 1\nalloc: 1\n").is_none());
    assert!(rc_statistics("inc: \ndec: 1\nalloc: 1\nfree: 1\n").is_none());
    let stats = rc_statistics("inc: 1\ndec: 2\nalloc: 3\nfree: 4\n").expect("statistics");
    assert_eq!(stats.static_incs, 0);
    assert_eq!(stats.dynamic_deallocs, 4);
}

fn sample_results() -> Vec<Vec<RcStatistics>> {
    (0..ROC_CONFIGURATION_COUNT)
        .map(|ci| {
            (0..PROGRAM_COUNT)
                .map(|bi| RcStatistics {
                    static_incs: ci * 10 + bi,
                    static_decs: 1,
                    static_resets: 2,
                    static_reuses: 3,
                    dynamic_incs: 100 + bi as u64,
                    dynamic_decs: 4,
                    dynamic_allocs: 5,
                    dynamic_deallocs: 6,
                })
                .collect()
        })
        .collect()
}

#[test]
fn static_table() {
    let rows = static_csv_records(&sample_results());
    assert_eq!(rows.len(), 2 + ROC_CONFIGURATION_COUNT);
    assert_eq!(
        rows[0],
        vec!["Static", "Deriv", "", "", "", "NQueens", "", "", "", "CFold", "", "", "", "RBTree", "", "", "", "RBTreeCk", "", "", ""]
    );
    assert_eq!(rows[1][..5], ["", "dup", "drop", "reset", "reuse"]);
    assert_eq!(rows[1].len(), 21);
    assert_eq!(rows[3][..5], ["Beans Specialized", "10", "1", "2", "3"]);
    assert_eq!(rows[5][17..], ["34", "1", "2", "3"]);
}

#[test]
fn dynamic_table() {
    let rows = dynamic_csv_records(&sample_results());
    assert_eq!(rows[0][0], "Dynamic");
    assert_eq!(rows[1][1..5], ["dup", "drop", "alloc", "dealloc"]);
    assert_eq!(rows[2][..5], ["Beans", "100", "4", "5", "6"]);
    assert_eq!(rows[4][0], "Perceus");
    assert_eq!(rows[4][17], "104");
}
