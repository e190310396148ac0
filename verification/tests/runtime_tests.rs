use bencher::runtime_performance::{
    build_command, create_benchmark_paths, create_compiler_paths, filter_nix_from_path,
    hyperfine_arguments, megabytes_from_kbytes_text, memory_csv_header, memory_csv_row,
    memory_usage_megabytes, roc_built_executable, roc_output_under, AfterBuild,
    BENCHMARK_COUNT, CONFIGURATION_COUNT,
};

#[test]
fn compiler_paths() {
    let paths = create_compiler_paths("/src/roc", "/bench/roc-binaries");
    assert_eq!(
        paths,
        vec![
            "/bench/roc-binaries/Beans/release/roc",
            "/bench/roc-binaries/Beans Specialized/release/roc",
            "/bench/roc-binaries/Perceus/release/roc",
            "/bench/roc-binaries/Perceus Specialized/release/roc",
            "koka",
            "ghc",
        ]
    );
}

#[test]
fn compiler_paths_are_distinct() {
    let paths = create_compiler_paths("", "bins/");
    for i in 0..CONFIGURATION_COUNT {
        for j in 0..CONFIGURATION_COUNT {
            if i != j {
                assert_ne!(paths[i], paths[j]);
            }
        }
    }
}

#[test]
fn benchmark_paths() {
    let paths = create_benchmark_paths("/bench/binaries/");
    assert_eq!(paths.len(), CONFIGURATION_COUNT);
    assert!(paths.iter().all(|row| row.len() == BENCHMARK_COUNT));
    assert_eq!(paths[0][0], "/bench/binaries/Beans Deriv");
    assert_eq!(paths[1][4], "/bench/binaries/Beans Specialized RBTreeCk");
    assert_eq!(paths[3][3], "/bench/binaries/Perceus Specialized RBTree");
    assert_eq!(paths[4][1], "/bench/binaries/Koka NQueens");
    assert_eq!(paths[5][2], "/bench/binaries/Haskell CFold");
}

#[test]
fn benchmark_paths_are_distinct() {
    let paths = create_benchmark_paths("/b");
    let mut all: Vec<&String> = paths.iter().flatten().collect();
    all.sort();
    all.dedup();
    assert_eq!(all.len(), CONFIGURATION_COUNT * BENCHMARK_COUNT);
}

#[test]
fn hyperfine_arguments_list_every_run() {
    let paths = create_benchmark_paths("/b");
    let args = hyperfine_arguments(10, "/r/time.csv", &paths);
    assert_eq!(args.len(), 7 + 3 * CONFIGURATION_COUNT * BENCHMARK_COUNT);
    assert_eq!(
        &args[..7],
        &["--warmup", "3", "--runs", "10", "--export-csv", "/r/time.csv", "--ignore-failure"]
    );
    assert_eq!(&args[7..10], &["--command-name", "Beans Deriv", "ulimit -s unlimited && \"/b/Beans Deriv\""]);
    // The benchmark varies slowest, the configuration fastest.
    assert_eq!(args[8 + 3], "Beans Specialized Deriv");
    assert_eq!(args[8 + 18], "Beans NQueens");
    assert_eq!(args[args.len() - 2], "Haskell RBTreeCk");
    assert_eq!(args[args.len() - 1], "ulimit -s unlimited && \"/b/Haskell RBTreeCk\"");
}

#[test]
fn memory_usage_in_megabytes() {
    let report = "\tCommand being timed: \"x\"\n\tMaximum resident set size (kbytes): 204800\n\tAverage resident set size (kbytes): 0\n";
    assert_eq!(memory_usage_megabytes(report), Some("200".to_string()));
    assert_eq!(memory_usage_megabytes("Maximum resident set size (kbytes): 1023"), Some("0".to_string()));
}

#[test]
fn memory_usage_missing_or_unreadable() {
    assert_eq!(memory_usage_megabytes("nothing here"), None);
    assert_eq!(memory_usage_megabytes("Maximum resident set size (kbytes): lots"), None);
}

#[test]
fn kbytes_to_megabytes() {
    assert_eq!(megabytes_from_kbytes_text("2048"), Some("2".to_string()));
    assert_eq!(megabytes_from_kbytes_text("-2049"), Some("-2".to_string()));
    assert_eq!(megabytes_from_kbytes_text("x"), None);
}

#[test]
fn memory_csv_rows() {
    assert_eq!(memory_csv_header(), vec!["", "Deriv", "NQueens", "CFold", "RBTree", "RBTreeCk"]);
    let row = memory_csv_row(3, &vec!["1".to_string(), "2".to_string(), "3".to_string(), "4".to_string(), "5".to_string()]);
    assert_eq!(row, vec!["Perceus Specialized", "1", "2", "3", "4", "5"]);
}

#[test]
fn build_commands_per_compiler() {
    let compilers = create_compiler_paths("/src", "/rb");
    let executables = create_benchmark_paths("/bin");
    let roc = build_command(1, 0, &compilers, "/bench/benchmarks/", &executables);
    assert_eq!(roc.program, "/rb/Beans Specialized/release/roc");
    assert_eq!(roc.args, vec!["build", "--optimize", "/bench/benchmarks/roc/Deriv.roc"]);
    assert!(roc.captures_output && !roc.filters_nix_from_path);
    assert_eq!(roc.after, AfterBuild::MoveRocOutput);

    let koka = build_command(4, 4, &compilers, "/bench/benchmarks/", &executables);
    assert_eq!(koka.program, "koka");
    assert_eq!(koka.args, vec!["/bench/benchmarks/koka/rbtree-ck.kk", "-O2", "--output", "/bin/Koka RBTreeCk"]);
    assert!(!koka.captures_output && !koka.filters_nix_from_path);
    assert_eq!(koka.after, AfterBuild::MakeExecutable);

    let ghc = build_command(5, 2, &compilers, "/bench/benchmarks/", &executables);
    assert_eq!(ghc.program, "ghc");
    assert_eq!(ghc.args, vec!["--make", "-o", "/bin/Haskell CFold", "-O", "/bench/benchmarks/haskell/cfold.hs"]);
    assert!(ghc.captures_output && ghc.filters_nix_from_path);
    assert_eq!(ghc.after, AfterBuild::Nothing);
}

#[test]
fn nix_directories_leave_the_path() {
    assert_eq!(filter_nix_from_path("/nix/store/a/bin:/usr/bin::/nix/x:/bin"), "/usr/bin::/bin");
    assert_eq!(filter_nix_from_path("/usr/bin"), "/usr/bin");
    assert_eq!(filter_nix_from_path("/nix/store/a/bin"), "");
    assert_eq!(filter_nix_from_path(""), "");
    assert_eq!(filter_nix_from_path("/nixos:/nix"), "/nixos:/nix");
}

#[test]
fn nix_filter_agrees_with_split_and_join() {
    for path in ["a:b", "/nix/a::/b:", ":", "/nix/:/nix/", "x"] {
        let expected = path.split(':').filter(|s| !s.starts_with("/nix/")).collect::<Vec<_>>().join(":");
        assert_eq!(filter_nix_from_path(path), expected);
    }
}

#[test]
fn nix_filter_twice_is_once() {
    for path in ["/nix/a:/b:/nix/c", "::", "/nix/x", "/usr/bin:/bin"] {
        let once = filter_nix_from_path(path);
        assert_eq!(filter_nix_from_path(&once), once);
    }
}

#[test]
fn roc_reported_output() {
    let stdout = "🎉 Built\n\n    bench/Deriv\n\nsome more\n";
    assert_eq!(roc_output_under("/home/b", stdout), Some("/home/b/bench/Deriv".to_string()));
    assert_eq!(roc_output_under("/home/b", "no report"), None);
    assert_eq!(
        roc_built_executable("/home/b/benchmarks/", stdout),
        Some("/home/b/bench/Deriv".to_string())
    );
    assert_eq!(roc_built_executable("", stdout), None);
}

#[test]
fn roc_reported_output_under_relative_and_dotted_paths() {
    let stdout = "\n\n    out/NQueens\n";
    assert_eq!(roc_built_executable("benchmarks", stdout), Some("out/NQueens".to_string()));
    assert_eq!(roc_built_executable("./benchmarks/", stdout), Some("./out/NQueens".to_string()));
    assert_eq!(roc_built_executable("/", stdout), None);
    assert_eq!(roc_built_executable("/.", stdout), None);
    assert_eq!(roc_built_executable("/./", stdout), None);
    assert_eq!(roc_built_executable("/b/benchmarks/.", stdout), Some("/b/out/NQueens".to_string()));
    assert_eq!(roc_built_executable("/bench/benchmarks", "no report"), None);
}
