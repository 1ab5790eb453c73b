use i2g_operator::err::I2GError;
use i2g_operator::strings::parse_i32;
use i2g_operator::value_filters::{MatchRule, MatchType, MatcherList};

fn ann(pairs: &[(&str, &str)]) -> Vec<(String, String)> {
    let mut v: Vec<(String, String)> = pairs.iter().map(|(k, v)| (k.to_string(), v.to_string())).collect();
    v.sort();
    v
}

fn rule(key: &str, value: &str, match_type: MatchType) -> MatchRule {
    MatchRule { key: key.to_string(), value: value.to_string(), match_type }
}

#[test]
fn parses_exact_rule() {
    assert_eq!(MatchRule::parse("env=prod").unwrap(), rule("env", "prod", MatchType::Equal));
}

#[test]
fn parses_regex_rule() {
    assert_eq!(MatchRule::parse("env~=prod").unwrap(), rule("env", "prod", MatchType::RegularExpression));
}

#[test]
fn splits_at_first_equals() {
    assert_eq!(MatchRule::parse("a=b=c").unwrap(), rule("a", "b=c", MatchType::Equal));
    assert_eq!(MatchRule::parse("=x").unwrap(), rule("", "x", MatchType::Equal));
    assert_eq!(MatchRule::parse("~~=x").unwrap(), rule("~", "x", MatchType::RegularExpression));
}

#[test]
fn rejects_rule_without_equals() {
    match MatchRule::parse("invalid") {
        Err(I2GError::ParseError(msg)) => assert_eq!(msg, "Invalid rule found 'invalid'"),
        other => panic!("unexpected {:?}", other),
    }
}

#[test]
fn parses_weights_like_std() {
    for s in ["0", "7", "+5", "-3", "007", "2147483647", "-2147483648", "", "-", "+", "2147483648", "-2147483649", "1a", " 1", "99999999999999999999"] {
        assert_eq!(parse_i32(s), s.parse::<i32>().ok(), "input {:?}", s);
    }
}

#[test]
fn from_annotations_orders_by_weight() {
    let a = ann(&[("headers/1", "env=prod"), ("headers/2", "env~=dev")]);
    let l = MatcherList::from_annotations(&a, "headers/");
    assert_eq!(l, MatcherList(vec![rule("env", "prod", MatchType::Equal), rule("env", "dev", MatchType::RegularExpression)]));
}

#[test]
fn from_annotations_sorts_numerically() {
    let a = ann(&[("headers/2", "env=prod"), ("headers/1", "env~=dev"), ("headers/10", "x=y")]);
    let l = MatcherList::from_annotations(&a, "headers/");
    assert_eq!(
        l,
        MatcherList(vec![
            rule("env", "dev", MatchType::RegularExpression),
            rule("env", "prod", MatchType::Equal),
            rule("x", "y", MatchType::Equal),
        ])
    );
}

#[test]
fn from_annotations_drops_malformed_value() {
    let a = ann(&[("headers/2", "invalid"), ("headers/1", "env=dev")]);
    let l = MatcherList::from_annotations(&a, "headers/");
    assert_eq!(l, MatcherList(vec![rule("env", "dev", MatchType::Equal)]));
}

#[test]
fn from_annotations_drops_non_numeric_weight() {
    let a = ann(&[("headers/abc", "env=dev"), ("headers/3", "a=b"), ("other/1", "c=d")]);
    let l = MatcherList::from_annotations(&a, "headers/");
    assert_eq!(l, MatcherList(vec![rule("a", "b", MatchType::Equal)]));
}

#[test]
fn from_annotations_keeps_order_of_equal_weights() {
    let a = ann(&[("headers/a/1", "k=1"), ("headers/b/1", "k=2"), ("headers/0", "k=0")]);
    let l = MatcherList::from_annotations(&a, "headers/");
    assert_eq!(
        l,
        MatcherList(vec![rule("k", "0", MatchType::Equal), rule("k", "1", MatchType::Equal), rule("k", "2", MatchType::Equal)])
    );
}

#[test]
fn make_groups_in_first_seen_order() {
    let l = MatcherList(vec![
        rule("b", "1", MatchType::Equal),
        rule("a", "1", MatchType::Equal),
        rule("b", "2", MatchType::RegularExpression),
    ]);
    assert_eq!(
        l.make_groups(),
        vec![
            vec![rule("b", "1", MatchType::Equal), rule("b", "2", MatchType::RegularExpression)],
            vec![rule("a", "1", MatchType::Equal)],
        ]
    );
}

#[test]
fn cartesian_product_of_nothing_is_empty() {
    assert!(MatcherList(vec![]).catesian_product().is_empty());
}

#[test]
fn cartesian_product_two_groups() {
    let a1 = rule("A", "a1", MatchType::Equal);
    let a2 = rule("A", "a2", MatchType::Equal);
    let b1 = rule("B", "b1", MatchType::Equal);
    let l = MatcherList(vec![a1.clone(), a2.clone(), b1.clone()]);
    assert_eq!(l.catesian_product(), vec![vec![a1.clone(), b1.clone()], vec![a2, b1]]);
}

#[test]
fn cartesian_product_lexicographic() {
    let l = MatcherList(vec![
        rule("A", "1", MatchType::Equal),
        rule("B", "1", MatchType::Equal),
        rule("A", "2", MatchType::Equal),
        rule("B", "2", MatchType::Equal),
    ]);
    let values: Vec<Vec<String>> = l.catesian_product().into_iter().map(|s| s.into_iter().map(|r| r.value).collect()).collect();
    assert_eq!(values, vec![vec!["1", "1"], vec!["1", "2"], vec!["2", "1"], vec!["2", "2"]]);
}
