use lrgest::range::SelectionPolicy;
use lrgest::render::{display_rank, parse_size_line, render_results};
use lrgest::units::{get_size_with_unit, size_unit, Unit};

#[test]
fn unit_thresholds_are_strict() {
    assert_eq!(size_unit(0), Unit::B);
    assert_eq!(size_unit(1024), Unit::B);
    assert_eq!(size_unit(1025), Unit::KB);
    assert_eq!(size_unit(1024 * 1024), Unit::KB);
    assert_eq!(size_unit(1024 * 1024 + 1), Unit::MB);
    assert_eq!(size_unit(1024 * 1024 * 1024 + 1), Unit::GB);
    assert_eq!(size_unit(1024 * 1024 * 1024 * 1024), Unit::GB);
    assert_eq!(size_unit(1024 * 1024 * 1024 * 1024 + 1), Unit::TB);
}

#[test]
fn sizes_with_units() {
    assert_eq!(get_size_with_unit(0), "0.00B");
    assert_eq!(get_size_with_unit(500), "500.00B");
    assert_eq!(get_size_with_unit(1024), "1024.00B");
    assert_eq!(get_size_with_unit(1025), "1.00KB");
    assert_eq!(get_size_with_unit(2048), "2.00KB");
    assert_eq!(get_size_with_unit(5_000_000), "4.77MB");
    assert_eq!(get_size_with_unit(1024 * 1024 * 1024 * 1024 + 1), "1.00TB");
    assert_eq!(get_size_with_unit(u64::MAX), "16777216.00TB");
}

#[test]
fn size_conversion_is_deterministic() {
    let a = get_size_with_unit(123_456_789);
    let b = get_size_with_unit(123_456_789);
    assert_eq!(a, b);
}

#[test]
fn record_lines_parse() {
    let e = parse_size_line("2048\t./foo").unwrap();
    assert_eq!(e.size, 2048);
    assert_eq!(e.path, "./foo");
    let e = parse_size_line("  500 ./a b").unwrap();
    assert_eq!(e.size, 500);
    assert_eq!(e.path, "./a");
    assert!(parse_size_line("x ./a").is_none());
    assert!(parse_size_line("2048").is_none());
    assert!(parse_size_line("").is_none());
}

#[test]
fn custom_range_ranks_match_the_request() {
    // seven returned lines for the user range 2-7, stored incremented
    let p = SelectionPolicy::CustomRange { head: 3, tail: 8 };
    let mut ranks = Vec::new();
    let mut i: usize = 0;
    while i < 7 {
        ranks.push(display_rank(&p, 7, i));
        i += 1;
    }
    assert_eq!(ranks, vec![8, 7, 6, 5, 4, 3, 2]);
}

#[test]
fn tail_beyond_entry_count_is_clamped() {
    let p = SelectionPolicy::CustomRange { head: 2, tail: 10 };
    assert_eq!(display_rank(&p, 3, 0), 3);
    assert_eq!(display_rank(&p, 3, 2), 1);
}

#[test]
fn default_ranks_count_down_to_one() {
    let p = SelectionPolicy::DefaultRange;
    assert_eq!(display_rank(&p, 3, 0), 3);
    assert_eq!(display_rank(&p, 3, 2), 1);
}

#[test]
fn three_records_end_to_end() {
    let lines = vec![
        "5000000 ./big".to_string(),
        "2048 ./mid".to_string(),
        "500 ./small".to_string(),
    ];
    let out = render_results(&lines, &SelectionPolicy::DefaultRange).unwrap();
    assert_eq!(
        out,
        vec![
            "3) \"./small\": 500.00B".to_string(),
            "2) \"./mid\": 2.00KB".to_string(),
            "1) \"./big\": 4.77MB".to_string(),
        ]
    );
}

#[test]
fn windowed_rendering_uses_request_ranks() {
    let lines = vec!["3000 ./c".to_string(), "2000 ./b".to_string(), "1000 ./a".to_string()];
    let p = SelectionPolicy::CustomRange { head: 3, tail: 5 };
    let out = render_results(&lines, &p).unwrap();
    // user asked for ranks 2-4: last rank min(3, 4) = 3, offset 1
    assert_eq!(
        out,
        vec![
            "4) \"./a\": 1000.00B".to_string(),
            "3) \"./b\": 1.95KB".to_string(),
            "2) \"./c\": 2.93KB".to_string(),
        ]
    );
}

#[test]
fn malformed_record_fails_rendering() {
    let lines = vec!["2048 ./ok".to_string(), "total".to_string()];
    assert!(render_results(&lines, &SelectionPolicy::DefaultRange).is_err());
}

#[test]
fn empty_window_renders_nothing() {
    let lines: Vec<String> = Vec::new();
    let out = render_results(&lines, &SelectionPolicy::DefaultRange).unwrap();
    assert!(out.is_empty());
}
