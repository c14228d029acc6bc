use scene_engine::fixed::Fx;
use scene_engine::parse::{is_true, parse_fx, split_args, split_bracket, ParseErr};

#[test]
fn bracket_splits_at_matching_close() {
    assert_eq!(split_bracket("ab]cd"), Ok(("ab".to_string(), 3)));
    assert_eq!(split_bracket("a[b]c]rest"), Ok(("a[b]c".to_string(), 6)));
    assert_eq!(split_bracket("]x"), Ok(("".to_string(), 1)));
    assert_eq!(split_bracket("abc"), Err(ParseErr::NoCloseBracket));
}

#[test]
fn args_split_on_top_level_separators() {
    assert_eq!(
        split_args("a, b ,\nc"),
        Ok(vec!["a".to_string(), "b".to_string(), "c".to_string()])
    );
    assert_eq!(
        split_args("a[1,2], b"),
        Ok(vec!["a[1,2]".to_string(), "b".to_string()])
    );
    // A separator arriving while the pending piece trims to nothing is
    // folded into the piece instead of cutting it.
    assert_eq!(split_args("  \n , "), Ok(vec![",".to_string()]));
}

#[test]
fn escaped_separator_stays_in_its_piece() {
    assert_eq!(split_args("a\\,b"), Ok(vec!["a\\,b".to_string()]));
}

#[test]
fn unbalanced_close_is_an_error() {
    assert_eq!(split_args("a]b"), Err(ParseErr::EarlyCloseBracket));
}

#[test]
fn split_args_is_idempotent_on_its_own_output() {
    let parts = split_args("one, two [a,b] , three").unwrap();
    assert_eq!(parts, vec!["one", "two [a,b]", "three"]);
    let joined = parts.join(",");
    assert_eq!(split_args(&joined).unwrap(), parts);
}

#[test]
fn decimal_literals_parse_exactly() {
    assert_eq!(parse_fx("3.5"), Ok(Fx::from_millionths(3500000)));
    assert_eq!(parse_fx("-0.25"), Ok(Fx::from_millionths(-250000)));
    assert_eq!(parse_fx("+2"), Ok(Fx::from_millionths(2000000)));
    assert_eq!(parse_fx("12."), Ok(Fx::from_millionths(12000000)));
    assert_eq!(parse_fx(".5"), Ok(Fx::from_millionths(500000)));
    // The seventh fractional place is dropped.
    assert_eq!(parse_fx("0.0000001"), Ok(Fx::from_millionths(0)));
}

#[test]
fn bad_literals_are_rejected() {
    assert_eq!(parse_fx(""), Err(ParseErr::InvalidNumber));
    assert_eq!(parse_fx("abc"), Err(ParseErr::InvalidNumber));
    assert_eq!(parse_fx("1e3"), Err(ParseErr::InvalidNumber));
    assert_eq!(parse_fx("1.2.3"), Err(ParseErr::InvalidNumber));
    assert_eq!(parse_fx("-"), Err(ParseErr::InvalidNumber));
}

#[test]
fn truthy_switch_values() {
    assert!(is_true("true"));
    assert!(is_true(" TRUE "));
    assert!(is_true("Y"));
    assert!(is_true("1"));
    assert!(!is_true("0"));
    assert!(!is_true("false"));
    assert!(!is_true(""));
}
