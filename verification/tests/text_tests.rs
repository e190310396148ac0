use bencher::roc_configuration::RocConfiguration;
use bencher::text::{
    i32_div, i32_to_decimal, join_path, parent_path, parse_i32, parse_u64, strip_slashes,
    u64_to_decimal,
};

#[test]
fn flags_of_each_configuration() {
    assert_eq!(RocConfiguration::Beans.flags(), "");
    assert_eq!(RocConfiguration::BeansSpecialisation.flags(), "--cfg DROP_SPECIALIZE");
    assert_eq!(RocConfiguration::Perceus.flags(), "--cfg PERCEUS_RC");
    assert_eq!(
        RocConfiguration::PerceusSpecialisation.flags(),
        "--cfg PERCEUS_RC --cfg DROP_SPECIALIZE"
    );
}

#[test]
fn flags_are_made_of_the_features() {
    // The Perceus option comes first, the drop-specialisation option second.
    let both = RocConfiguration::PerceusSpecialisation.flags();
    let perceus = RocConfiguration::Perceus.flags();
    let drops = RocConfiguration::BeansSpecialisation.flags();
    assert_eq!(both, format!("{} {}", perceus, drops));
}

#[test]
fn join_appends_with_one_separator() {
    assert_eq!(join_path("/home/bench", "binaries"), "/home/bench/binaries");
    assert_eq!(join_path("/home/bench/", "binaries"), "/home/bench/binaries");
    assert_eq!(join_path("", "binaries"), "binaries");
    assert_eq!(join_path("/home", "release/roc"), "/home/release/roc");
}

#[test]
fn join_with_absolute_segment_replaces_the_base() {
    assert_eq!(join_path("/home/bench", "/usr/bin/time"), "/usr/bin/time");
}

#[test]
fn join_agrees_with_std_path_join() {
    for (base, seg) in [("/a/b", "c d"), ("/a/b/", "c"), ("rel", "x/y"), ("", "x"), ("/a", "/b")] {
        let expected = std::path::Path::new(base).join(seg);
        assert_eq!(join_path(base, seg), expected.to_str().unwrap());
    }
}

#[test]
fn strip_slashes_removes_every_slash() {
    assert_eq!(strip_slashes("a/b/c/"), "abc");
    assert_eq!(strip_slashes("Beans Specialized"), "Beans Specialized");
    assert_eq!(strip_slashes("///"), "");
    assert_eq!(strip_slashes("ü/ß"), "üß");
}

#[test]
fn decimal_formatting() {
    assert_eq!(u64_to_decimal(0), "0");
    assert_eq!(u64_to_decimal(7), "7");
    assert_eq!(u64_to_decimal(1024), "1024");
    assert_eq!(u64_to_decimal(u64::MAX), u64::MAX.to_string());
    assert_eq!(i32_to_decimal(-5), "-5");
    assert_eq!(i32_to_decimal(i32::MIN), i32::MIN.to_string());
    assert_eq!(i32_to_decimal(i32::MAX), "2147483647");
}

#[test]
fn parse_u64_like_std() {
    for text in ["0", "17", "+17", "", "+", "-1", "1a", "18446744073709551615", "18446744073709551616", "007", " 1"] {
        assert_eq!(parse_u64(text), text.parse::<u64>().ok(), "parsing {:?}", text);
    }
}

#[test]
fn parse_i32_like_std() {
    for text in ["0", "-0", "+5", "-5", "", "-", "+", "2147483647", "2147483648", "-2147483648", "-2147483649", "12x", "99999999999999999999999"] {
        assert_eq!(parse_i32(text), text.parse::<i32>().ok(), "parsing {:?}", text);
    }
}

#[test]
fn formatting_then_parsing_gives_the_number_back() {
    for n in [0u64, 1, 9, 10, 12345, u64::MAX] {
        assert_eq!(parse_u64(&u64_to_decimal(n)), Some(n));
    }
    for v in [0i32, -1, 42, i32::MIN, i32::MAX] {
        assert_eq!(parse_i32(&i32_to_decimal(v)), Some(v));
    }
}

#[test]
fn division_rounds_toward_zero() {
    assert_eq!(i32_div(2048, 1024), 2);
    assert_eq!(i32_div(2047, 1024), 1);
    assert_eq!(i32_div(-2049, 1024), -2);
    assert_eq!(i32_div(i32::MIN, 1024), i32::MIN / 1024);
}

fn std_parent(p: &str) -> Option<String> {
    std::path::Path::new(p)
        .parent()
        .map(|q| q.to_str().unwrap().to_string())
}

#[test]
fn parent_path_like_std() {
    let cases = [
        "", "/", "/.", "/./", "/././.", ".", "./", "./a", "a", "a/", "a/b", "a//b", "a/./",
        "../a", "/a", "//", "//a", "/home/x/benchmarks/", "a/..", ".a/b", "a/.b/", "/a/b/./.",
        "a/./b/", "..", "./.", "x/y/z", "/x//y//", "/./a", "a/b/..", "./a/./", "é/ü/", "/.a", "./..",
    ];
    for p in cases {
        assert_eq!(parent_path(p), std_parent(p), "parent of {:?}", p);
    }
}

#[test]
fn parent_path_examples() {
    assert_eq!(parent_path("/home/b/benchmarks/"), Some("/home/b".to_string()));
    assert_eq!(parent_path("a/b/."), Some("a".to_string()));
    assert_eq!(parent_path("a"), Some("".to_string()));
    assert_eq!(parent_path("/"), None);
    assert_eq!(parent_path("/."), None);
    assert_eq!(parent_path(""), None);
}
