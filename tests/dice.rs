use dndsh::dice::{parse_dice, roll_dice, roll_token, summarize, DiceRoll, DiceToken, DieOutcome};

fn chars(s: &str) -> Vec<char> {
    s.chars().collect()
}

#[test]
fn dice_token_shapes() {
    assert_eq!(parse_dice(&chars("3d6")), DiceToken::Dice { count: 3, sides: 6 });
    assert_eq!(parse_dice(&chars("x12d34y")), DiceToken::Dice { count: 12, sides: 34 });
    assert_eq!(parse_dice(&chars("1dd6")), DiceToken::Invalid);
    assert_eq!(parse_dice(&chars("d6")), DiceToken::Invalid);
    assert_eq!(parse_dice(&chars("abc")), DiceToken::Invalid);
    assert_eq!(parse_dice(&chars("2d")), DiceToken::Invalid);
}

#[test]
fn zero_count_and_zero_sides() {
    assert_eq!(parse_dice(&chars("0d6")), DiceToken::ZeroCount);
    assert_eq!(parse_dice(&chars("3d0")), DiceToken::ZeroSides);
}

#[test]
fn oversized_dice_rejected() {
    assert_eq!(parse_dice(&chars("99999999999999999999999d6")), DiceToken::TooLarge);
    assert_eq!(parse_dice(&chars("18446744073709551615d2")), DiceToken::TooLarge);
}

#[test]
fn three_d_six_rolls() {
    for _ in 0..200 {
        let r = roll_token(&"3d6".to_string());
        assert_eq!(r.token, "3d6");
        match r.outcome {
            DieOutcome::Rolled(d) => {
                assert_eq!(d.rolls.len(), 3);
                assert!(d.rolls.iter().all(|&n| (1..=6).contains(&n)));
                assert_eq!(d.sum, d.rolls.iter().sum::<usize>());
                assert_eq!(d.min, *d.rolls.iter().min().unwrap());
                assert_eq!(d.max, *d.rolls.iter().max().unwrap());
            }
            other => panic!("unexpected {:?}", other),
        }
    }
}

#[test]
fn zero_dice_token_rolls_nothing() {
    let r = roll_token(&"0d6".to_string());
    assert!(matches!(r.outcome, DieOutcome::ZeroCount));
    let r = roll_token(&"nonsense".to_string());
    assert!(matches!(r.outcome, DieOutcome::Invalid));
}

#[test]
fn one_sided_dice_are_exact() {
    let d = roll_dice(4, 1);
    assert_eq!(d.rolls, vec![1, 1, 1, 1]);
    assert_eq!((d.sum, d.min, d.max), (4, 1, 1));
}

#[test]
fn summarize_exact() {
    assert_eq!(summarize(&vec![3, 1, 6, 2]), (12, 1, 6));
    assert_eq!(summarize(&vec![5]), (5, 5, 5));
}

#[test]
fn short_rolls_shown_whole() {
    let d = DiceRoll { rolls: vec![1, 2, 3], sum: 6, min: 1, max: 3 };
    let v = d.shown();
    assert_eq!(v.head, vec![1, 2, 3]);
    assert_eq!(v.skipped, None);
    assert!(v.tail.is_empty());
}

#[test]
fn long_rolls_elided() {
    let rolls: Vec<usize> = (1..=40).collect();
    let d = DiceRoll { rolls, sum: 820, min: 1, max: 40 };
    let v = d.shown();
    assert_eq!(v.head, vec![1, 2, 3, 4, 5]);
    assert_eq!(v.skipped, Some(30));
    assert_eq!(v.tail, vec![36, 37, 38, 39, 40]);
}

#[test]
fn thirty_two_rolls_elided() {
    let rolls: Vec<usize> = vec![2; 32];
    let d = DiceRoll { rolls, sum: 64, min: 2, max: 2 };
    assert_eq!(d.shown().skipped, Some(22));
    let d = DiceRoll { rolls: vec![2; 31], sum: 62, min: 2, max: 2 };
    assert_eq!(d.shown().skipped, None);
}
