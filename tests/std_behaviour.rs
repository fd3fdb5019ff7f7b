use dndsh::tokenizer::get_args;

#[test]
fn test_substr() {
    let s = "h";
    let t = &s[1..];
    println!("{}", t);
}

#[test]
fn test_saturate() {
    assert_eq!(0_usize.saturating_sub(1), 0);
}

#[test]
fn bang_alone_leaves_empty_rest() {
    let args = get_args("!");
    assert_eq!(args, vec!["!".to_string()]);
    assert_eq!(&args[0][1..], "");
}
