use lrgest::decimal::{i128_to_string, parse_u64_digits, parse_usize_digits, usize_to_string};
use lrgest::messages::{invalid_option_message, not_a_directory_message};
use lrgest::options::parse_options;
use lrgest::range::{
    line_window, parse_count, parse_range_spec, retrieve_head_tail, sed_range_arg, trim_spaces,
    SelectionPolicy,
};

#[test]
fn decimal_strings() {
    assert_eq!(usize_to_string(0), "0");
    assert_eq!(usize_to_string(7), "7");
    assert_eq!(usize_to_string(120), "120");
    assert_eq!(usize_to_string(usize::MAX), usize::MAX.to_string());
    assert_eq!(i128_to_string(-5), "-5");
    assert_eq!(i128_to_string(0), "0");
    assert_eq!(i128_to_string(1234), "1234");
}

#[test]
fn digit_parsing() {
    assert_eq!(parse_u64_digits("0"), Some(0));
    assert_eq!(parse_u64_digits("2048"), Some(2048));
    assert_eq!(parse_u64_digits("18446744073709551615"), Some(u64::MAX));
    assert_eq!(parse_u64_digits("18446744073709551616"), None);
    assert_eq!(parse_u64_digits(""), None);
    assert_eq!(parse_u64_digits("12a"), None);
    assert_eq!(parse_usize_digits("10"), Some(10));
}

#[test]
fn trimming() {
    assert_eq!(trim_spaces("  42\t"), "42");
    assert_eq!(trim_spaces("42"), "42");
    assert_eq!(trim_spaces(" \n "), "");
}

#[test]
fn count_token_parsing() {
    assert_eq!(parse_count("5"), Some(5));
    assert_eq!(parse_count(" 42 "), Some(42));
    assert_eq!(parse_count("+7"), Some(7));
    assert_eq!(parse_count("3-8"), None);
    assert_eq!(parse_count(""), None);
    assert_eq!(parse_count("x"), None);
}

#[test]
fn absent_token_keeps_default() {
    assert_eq!(parse_range_spec(None), Ok(SelectionPolicy::DefaultRange));
}

#[test]
fn integer_token_yields_custom_tail() {
    assert_eq!(
        parse_range_spec(Some("5")),
        Ok(SelectionPolicy::CustomTail { count: 5 })
    );
    assert_eq!(
        parse_range_spec(Some("0")),
        Ok(SelectionPolicy::CustomTail { count: 0 })
    );
    assert_eq!(
        parse_range_spec(Some(" 10 ")),
        Ok(SelectionPolicy::CustomTail { count: 10 })
    );
}

#[test]
fn range_token_yields_incremented_bounds() {
    assert_eq!(retrieve_head_tail("2-7"), Ok((3, 8)));
    assert_eq!(retrieve_head_tail("0-0"), Ok((1, 1)));
    assert_eq!(retrieve_head_tail("1-6"), Ok((2, 7)));
    assert_eq!(
        parse_range_spec(Some("2-7")),
        Ok(SelectionPolicy::CustomRange { head: 3, tail: 8 })
    );
}

#[test]
fn head_above_tail_is_rejected() {
    assert!(retrieve_head_tail("7-2").is_err());
    assert!(parse_range_spec(Some("7-2")).is_err());
    // equal bounds are fine
    assert_eq!(retrieve_head_tail("4-4"), Ok((5, 5)));
}

#[test]
fn malformed_range_tokens_are_rejected() {
    assert!(retrieve_head_tail("2x7").is_err());
    assert!(retrieve_head_tail("2--7").is_err());
    assert!(retrieve_head_tail("1-2-3").is_err());
    assert!(retrieve_head_tail("-5").is_err());
    assert!(retrieve_head_tail("5-").is_err());
    assert!(retrieve_head_tail("abc").is_err());
    assert!(retrieve_head_tail("").is_err());
    assert!(parse_range_spec(Some("1..3")).is_err());
}

#[test]
fn line_windows() {
    assert_eq!(line_window(&SelectionPolicy::DefaultRange), (2, 11));
    assert_eq!(line_window(&SelectionPolicy::CustomTail { count: 5 }), (2, 6));
    assert_eq!(line_window(&SelectionPolicy::CustomTail { count: 0 }), (2, 1));
    assert_eq!(
        line_window(&SelectionPolicy::CustomRange { head: 3, tail: 8 }),
        (3, 8)
    );
}

#[test]
fn sed_arguments() {
    assert_eq!(sed_range_arg(2, 11), "2,11p");
    assert_eq!(sed_range_arg(3, 8), "3,8p");
}

#[test]
fn unrecognized_option_fails() {
    let mut args = vec!["prog".to_string(), "-x".to_string(), "dir".to_string()];
    let r = parse_options(&mut args);
    assert_eq!(r, Err('x'));
    assert_eq!(args, vec!["prog".to_string(), "-x".to_string(), "dir".to_string()]);
    assert_eq!(invalid_option_message('x'), "invalid option 'x'");
}

#[test]
fn recognized_option_is_collected_and_removed() {
    let mut args = vec!["prog".to_string(), "-a".to_string(), "dir".to_string()];
    let r = parse_options(&mut args).unwrap();
    assert!(r.list_all_files);
    assert_eq!(args, vec!["prog".to_string(), "dir".to_string()]);
}

#[test]
fn no_options_given() {
    let mut args = vec!["prog".to_string(), "dir".to_string(), "5".to_string()];
    let r = parse_options(&mut args).unwrap();
    assert!(!r.list_all_files);
    assert_eq!(
        args,
        vec!["prog".to_string(), "dir".to_string(), "5".to_string()]
    );
}

#[test]
fn several_flag_arguments_are_all_removed() {
    let mut args = vec![
        "prog".to_string(),
        "-a".to_string(),
        "dir".to_string(),
        "-a".to_string(),
    ];
    let r = parse_options(&mut args).unwrap();
    assert!(r.list_all_files);
    assert_eq!(args, vec!["prog".to_string(), "dir".to_string()]);
}

#[test]
fn lone_dash_is_an_empty_flag_argument() {
    let mut args = vec!["prog".to_string(), "-".to_string(), "dir".to_string()];
    let r = parse_options(&mut args).unwrap();
    assert!(!r.list_all_files);
    assert_eq!(args, vec!["prog".to_string(), "dir".to_string()]);
}

#[test]
fn directory_diagnostic() {
    assert_eq!(
        not_a_directory_message("/no/such/place"),
        "'/no/such/place' is not a directory"
    );
}
