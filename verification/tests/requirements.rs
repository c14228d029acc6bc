use scene_engine::fixed::Fx;
use scene_engine::parse::ParseErr;
use scene_engine::player::PlayerData;
use scene_engine::requirements::{CompVal, Comparison, ReqVal, Requirements};

fn player() -> PlayerData {
    PlayerData::new(1, 1, 1)
}

#[test]
fn five_greater_than_three() {
    let r = Requirements::from_str("5>3").unwrap();
    assert!(r.evaluate(&player()));
    assert_eq!(
        r.head,
        ReqVal::Comparison(
            CompVal::Const(Fx::from_millionths(5000000)),
            Comparison::GreaterThan,
            CompVal::Const(Fx::from_millionths(3000000)),
        )
    );
    assert_eq!(r.body.len(), 0);
}

#[test]
fn left_fold_without_precedence() {
    assert!(!Requirements::from_str("5>3&2<1").unwrap().evaluate(&player()));
    assert!(Requirements::from_str("5>3|2<1").unwrap().evaluate(&player()));
    // (false | true) & true: the fold goes strictly left to right.
    assert!(Requirements::from_str("1>2|3>2&4>3").unwrap().evaluate(&player()));
    // (true | true) & false.
    assert!(!Requirements::from_str("3>2|3>2&2>3").unwrap().evaluate(&player()));
}

#[test]
fn negated_tag_is_absence() {
    let r = Requirements::from_str("!tagA").unwrap();
    let mut p = player();
    assert!(r.evaluate(&p));
    p.add_tag("tagA".to_string());
    assert!(!r.evaluate(&p));
}

#[test]
fn bracketed_group_is_one_term() {
    let r = Requirements::from_str("[a&b]|c").unwrap();
    let mut p = player();
    assert!(!r.evaluate(&p));
    p.add_tag("c".to_string());
    assert!(r.evaluate(&p));
    let mut q = player();
    q.add_tag("a".to_string());
    assert!(!r.evaluate(&q));
    q.add_tag("b".to_string());
    assert!(r.evaluate(&q));
}

#[test]
fn stat_keywords_alias_the_stored_attributes() {
    let p = PlayerData::new(5, 7, 9);
    assert!(Requirements::from_str("recovery=5").unwrap().evaluate(&p));
    assert!(Requirements::from_str("focus=5").unwrap().evaluate(&p));
    assert!(Requirements::from_str("reasoning=5").unwrap().evaluate(&p));
    assert!(Requirements::from_str("speed=7").unwrap().evaluate(&p));
    assert!(Requirements::from_str("strength=7").unwrap().evaluate(&p));
    assert!(Requirements::from_str("deception=9").unwrap().evaluate(&p));
    assert!(Requirements::from_str("expression!=5").unwrap().evaluate(&p));
}

#[test]
fn whitespace_is_stripped_before_scanning() {
    assert!(Requirements::from_str(" 5 > 3 ").unwrap().evaluate(&player()));
}

#[test]
fn comparison_operand_errors_propagate() {
    assert_eq!(
        Requirements::from_str("x<3").unwrap_err(),
        ParseErr::InvalidNumber
    );
    assert_eq!(
        Requirements::from_str("").unwrap_err(),
        ParseErr::NotEnoughArgs
    );
}

#[test]
fn equality_uses_the_fixed_tolerance() {
    let p = player();
    assert!(Requirements::from_str("5=5.0").unwrap().evaluate(&p));
    assert!(!Requirements::from_str("5=5.000001").unwrap().evaluate(&p));
    assert!(Requirements::from_str("5!=4.999999").unwrap().evaluate(&p));
}
