use gen_rtp::error::GenError;
use gen_rtp::text::parse_usize;
use gen_rtp::text::u64_to_string;
use gen_rtp::text::is_float_str;
use gen_rtp::text::is_int_str;
use gen_rtp::utils::atrange2atlist;

#[test]
fn atrange2atlist_reads_ranges_and_singles() {
    assert_eq!(atrange2atlist("1-3,5").unwrap(), vec![1, 2, 3, 5]);
    assert_eq!(atrange2atlist("7").unwrap(), vec![7]);
    assert_eq!(atrange2atlist("2-2").unwrap(), vec![2]);
    assert_eq!(atrange2atlist("4,1-2,9").unwrap(), vec![4, 1, 2, 9]);
}

#[test]
fn atrange2atlist_ignores_spaces() {
    assert_eq!(atrange2atlist("1 - 3, 5").unwrap(), vec![1, 2, 3, 5]);
}

#[test]
fn atrange2atlist_blank_selects_nothing() {
    assert_eq!(atrange2atlist("").unwrap(), Vec::<usize>::new());
    assert_eq!(atrange2atlist("   ").unwrap(), Vec::<usize>::new());
}

#[test]
fn atrange2atlist_empty_descending_range() {
    assert_eq!(atrange2atlist("3-1").unwrap(), Vec::<usize>::new());
}

#[test]
fn atrange2atlist_rejects_bad_fields() {
    assert_eq!(atrange2atlist("x"), Err(GenError::ConfigError));
    assert_eq!(atrange2atlist("1,,3"), Err(GenError::ConfigError));
    assert_eq!(atrange2atlist("1-"), Err(GenError::ConfigError));
    assert_eq!(atrange2atlist("1,"), Err(GenError::ConfigError));
}

#[test]
fn decimal_printing_and_reading_agree() {
    assert_eq!(u64_to_string(0), "0");
    assert_eq!(u64_to_string(7), "7");
    assert_eq!(u64_to_string(12345), "12345");
    assert_eq!(parse_usize("12345"), Some(12345));
    assert_eq!(parse_usize("0"), Some(0));
    assert_eq!(parse_usize(""), None);
    assert_eq!(parse_usize("12a"), None);
    assert_eq!(parse_usize("99999999999999999999999999"), None);
}

#[test]
fn float_field_grammar() {
    assert!(is_float_str("0.0"));
    assert!(is_float_str("-1.5"));
    assert!(is_float_str("+12"));
    assert!(is_float_str("1."));
    assert!(is_float_str(".5"));
    assert!(is_float_str("1e5"));
    assert!(is_float_str("-3.2e-4"));
    assert!(is_float_str("2E+10"));
    assert!(!is_float_str(""));
    assert!(!is_float_str("."));
    assert!(!is_float_str("-"));
    assert!(!is_float_str("1e"));
    assert!(!is_float_str("1.2.3"));
    assert!(!is_float_str("abc"));
    assert!(!is_float_str("1 2"));
}

#[test]
fn int_field_grammar() {
    assert!(is_int_str("0"));
    assert!(is_int_str("-12"));
    assert!(is_int_str("+7"));
    assert!(!is_int_str(""));
    assert!(!is_int_str("-"));
    assert!(!is_int_str("1.0"));
}
