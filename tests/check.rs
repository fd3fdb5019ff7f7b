use dndsh::check::{check_mode, check_roll, parse_check, resolve_check, CheckToken, CheckType};

fn chars(s: &str) -> Vec<char> {
    s.chars().collect()
}

#[test]
fn check_token_shapes() {
    assert_eq!(parse_check(&chars("+5/15")), CheckToken::Check { modifier: 5, dc: 15 });
    assert_eq!(parse_check(&chars("-3/10")), CheckToken::Check { modifier: -3, dc: 10 });
    assert_eq!(parse_check(&chars("4/12")), CheckToken::Check { modifier: 4, dc: 12 });
    assert_eq!(parse_check(&chars("5-3/10")), CheckToken::Check { modifier: -3, dc: 10 });
    assert_eq!(parse_check(&chars("abc")), CheckToken::Invalid);
    assert_eq!(parse_check(&chars("+/10")), CheckToken::Invalid);
    assert_eq!(parse_check(&chars("5/")), CheckToken::Invalid);
}

#[test]
fn check_numbers_out_of_range() {
    assert_eq!(parse_check(&chars("9223372036854775808/1")), CheckToken::OutOfRange);
    assert_eq!(
        parse_check(&chars("-9223372036854775808/1")),
        CheckToken::Check { modifier: i64::MIN, dc: 1 }
    );
    assert_eq!(parse_check(&chars("1/18446744073709551616")), CheckToken::OutOfRange);
}

#[test]
fn mode_from_flags() {
    assert_eq!(check_mode(&[]), CheckType::Normal);
    assert_eq!(check_mode(&["-a".to_string()]), CheckType::Advantage);
    assert_eq!(check_mode(&["-a".to_string(), "-d".to_string()]), CheckType::Disadvantage);
    assert_eq!(check_mode(&["-d".to_string(), "-x".to_string(), "-a".to_string()]), CheckType::Advantage);
    assert_eq!(check_mode(&["-ad".to_string()]), CheckType::Normal);
}

#[test]
fn normal_check_plus_five_against_fifteen() {
    let r = resolve_check(5, 15, CheckType::Normal, 10, 1);
    assert_eq!((r.kept, r.total, r.passed, r.second), (10, 15, true, None));
    let r = resolve_check(5, 15, CheckType::Normal, 9, 1);
    assert_eq!((r.total, r.passed), (14, false));
    for _ in 0..200 {
        let r = check_roll(5, 15, CheckType::Normal);
        assert!((1..=20).contains(&r.first));
        assert_eq!(r.total, r.first as i128 + 5);
        assert_eq!(r.passed, r.total >= 15);
    }
}

#[test]
fn advantage_keeps_higher() {
    let r = resolve_check(-3, 10, CheckType::Advantage, 4, 17);
    assert_eq!((r.kept, r.total, r.passed, r.second), (17, 14, true, Some(17)));
    let r = resolve_check(-3, 10, CheckType::Advantage, 12, 2);
    assert_eq!((r.kept, r.total, r.passed), (12, 9, false));
    for _ in 0..200 {
        let r = check_roll(-3, 10, CheckType::Advantage);
        let second = r.second.unwrap();
        assert_eq!(r.total, r.first.max(second) as i128 - 3);
    }
}

#[test]
fn disadvantage_keeps_lower() {
    let r = resolve_check(2, 5, CheckType::Disadvantage, 4, 17);
    assert_eq!((r.kept, r.total, r.passed), (4, 6, true));
}

#[test]
fn negative_total_fails() {
    let r = resolve_check(-10, 0, CheckType::Normal, 3, 1);
    assert_eq!((r.total, r.passed), (-7, false));
    let r = resolve_check(0, 0, CheckType::Normal, 1, 1);
    assert!(r.passed);
}
