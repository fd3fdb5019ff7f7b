use dndsh::tokenizer::get_args;

#[test]
fn empty_line_has_no_tokens() {
    assert!(get_args("").is_empty());
}

#[test]
fn blank_line_has_no_tokens() {
    assert!(get_args(" \t  \n ").is_empty());
    assert!(get_args("\u{3000}\u{a0}").is_empty());
}

#[test]
fn tokens_are_maximal_runs_in_order() {
    assert_eq!(get_args("  roll  1d6\t2d8 "), vec!["roll", "1d6", "2d8"]);
    assert_eq!(get_args("check +5/15 -a"), vec!["check", "+5/15", "-a"]);
}

#[test]
fn token_count_matches_runs() {
    assert_eq!(get_args("a b  c").len(), 3);
    assert_eq!(get_args("abc").len(), 1);
    assert_eq!(get_args("x\u{2003}y").len(), 2);
}
