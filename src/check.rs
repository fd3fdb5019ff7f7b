//! Ability checks: a d20 plus a modifier against a difficulty class.
use vstd::prelude::*;
use crate::digits::{digit_run_end, is_digit, lemma_run_end, parse_digits, run_end, value};
use crate::parser::ParseResult;
use crate::random::draw;
use crate::text::chars_of;

verus! {

/// Sides of the die a check rolls.
pub const CHECK_DIE: usize = 20;

/// How many d20 a check rolls, and which one it keeps.
#[derive(PartialEq, Eq, Structural, Clone, Copy, Debug)]
pub enum CheckType {
    /// One die.
    Normal,
    /// Two dice; the higher is kept.
    Advantage,
    /// Two dice; the lower is kept.
    Disadvantage,
}

pub open spec fn is_sign(c: char) -> bool {
    c == '+' || c == '-'
}

/// Where the digits of a check pattern at `s` start.
pub open spec fn modifier_start(t: Seq<char>, s: int) -> int {
    if is_sign(t[s]) {
        s + 1
    } else {
        s
    }
}

/// A check pattern starts at `s`: an optional sign, digits, `/`, a digit.
pub open spec fn check_at(t: Seq<char>, s: int) -> bool {
    let m = modifier_start(t, s);
    let e = run_end(t, m);
    &&& 0 <= s < t.len()
    &&& m < t.len()
    &&& is_digit(t[m])
    &&& e + 1 < t.len()
    &&& t[e] == '/'
    &&& is_digit(t[e + 1])
}

pub open spec fn has_check(t: Seq<char>) -> bool {
    exists|s: int| check_at(t, s)
}

/// Where the leftmost check pattern of `t` starts.
pub open spec fn check_start(t: Seq<char>) -> int
    recommends
        has_check(t),
{
    choose|s: int| check_at(t, s) && forall|u: int| 0 <= u < s ==> !check_at(t, u)
}

/// What a check token asks for.
#[derive(PartialEq, Eq, Structural, Clone, Copy, Debug)]
pub enum CheckToken {
    /// It holds no `<+|-><digits>/<digits>` pattern.
    Invalid,
    /// The modifier does not fit in `i64`, or the class in `u64`.
    OutOfRange,
    /// A check with this modifier against this class.
    Check { modifier: i64, dc: u64 },
}

/// What the check token `t` asks for, read from its leftmost check pattern.
pub open spec fn check_token(t: Seq<char>) -> CheckToken {
    if !has_check(t) {
        CheckToken::Invalid
    } else {
        let s = check_start(t);
        let m = modifier_start(t, s);
        let e = run_end(t, m);
        let magnitude = value(t.subrange(m, e));
        let modifier: int = if t[s] == '-' { -magnitude } else { magnitude as int };
        let dc = value(t.subrange(e + 1, run_end(t, e + 1)));
        if i64::MIN <= modifier <= i64::MAX && dc <= u64::MAX {
            CheckToken::Check { modifier: modifier as i64, dc: dc as u64 }
        } else {
            CheckToken::OutOfRange
        }
    }
}

/// Reads the check token `t`.
pub fn parse_check(t: &[char]) -> (r: CheckToken)
    ensures
        r == check_token(t@),
{
    let mut s: usize = 0;
    while s < t.len()
        invariant
            s <= t@.len(),
            forall|u: int| 0 <= u < s ==> !check_at(t@, u),
        decreases t@.len() - s,
    {
        let m = if t[s] == '+' || t[s] == '-' { s + 1 } else { s };
        if m < t.len() && '0' <= t[m] && t[m] <= '9' {
            let e = digit_run_end(t, m);
            if e < t.len() && t[e] == '/' && e + 1 < t.len() && '0' <= t[e + 1] && t[e + 1] <= '9' {
                assert(check_at(t@, s as int));
                let e2 = digit_run_end(t, e + 1);
                proof {
                    lemma_run_end(t@, m as int);
                    lemma_run_end(t@, e + 1);
                    let w = check_start(t@);
                    assert(check_at(t@, w) && forall|u: int| 0 <= u < w ==> !check_at(t@, u));
                    assert(w == s);
                }
                let magnitude = parse_digits(t, m, e);
                let dc = parse_digits(t, e + 1, e2);
                match (magnitude, dc) {
                    (Some(a), Some(d)) => {
                        if d > u64::MAX as u128 {
                            return CheckToken::OutOfRange;
                        }
                        if t[s] == '-' {
                            if a > 9223372036854775808u128 {
                                return CheckToken::OutOfRange;
                            }
                            let modifier: i64 = if a == 9223372036854775808u128 {
                                i64::MIN
                            } else {
                                -(a as i64)
                            };
                            return CheckToken::Check { modifier, dc: d as u64 };
                        } else {
                            if a > i64::MAX as u128 {
                                return CheckToken::OutOfRange;
                            }
                            return CheckToken::Check { modifier: a as i64, dc: d as u64 };
                        }
                    },
                    _ => {
                        return CheckToken::OutOfRange;
                    },
                }
            }
        }
        s += 1;
    }
    CheckToken::Invalid
}

/// The mode that the flags `flags` choose: the last `-a` or `-d` among them
/// wins; with neither, a normal roll.
pub open spec fn mode_of(flags: Seq<Seq<char>>) -> CheckType
    decreases flags.len(),
{
    if flags.len() == 0 {
        CheckType::Normal
    } else if flags.last() == seq!['-', 'a'] {
        CheckType::Advantage
    } else if flags.last() == seq!['-', 'd'] {
        CheckType::Disadvantage
    } else {
        mode_of(flags.drop_last())
    }
}

/// The mode that the flags `flags` choose.
pub fn check_mode(flags: &[String]) -> (r: CheckType)
    ensures
        r == mode_of(flags@.map_values(|f: String| f@)),
{
    let ghost fs = flags@.map_values(|f: String| f@);
    let mut mode = CheckType::Normal;
    let mut i: usize = 0;
    while i < flags.len()
        invariant
            i <= flags@.len(),
            fs == flags@.map_values(|f: String| f@),
            mode == mode_of(fs.take(i as int)),
        decreases flags@.len() - i,
    {
        let f = chars_of(flags[i].as_str());
        assert(fs.take(i + 1).drop_last() =~= fs.take(i as int));
        assert(fs.take(i + 1).last() == f@);
        if f.len() == 2 && f[0] == '-' && f[1] == 'a' {
            assert(f@ =~= seq!['-', 'a']);
            mode = CheckType::Advantage;
        } else if f.len() == 2 && f[0] == '-' && f[1] == 'd' {
            assert(f@ =~= seq!['-', 'd']);
            mode = CheckType::Disadvantage;
        }
        i += 1;
    }
    assert(fs.take(i as int) =~= fs);
    mode
}

/// A rolled check: the dice, the die kept, the total and the verdict.
#[derive(Debug)]
pub struct CheckReport {
    pub mode: CheckType,
    pub modifier: i64,
    pub dc: u64,
    pub first: usize,
    /// The second die, rolled with advantage or disadvantage only.
    pub second: Option<usize>,
    pub kept: usize,
    pub total: i128,
    pub passed: bool,
}

/// The die a check keeps from `first` and `second`.
pub open spec fn kept_die(mode: CheckType, first: int, second: int) -> int {
    match mode {
        CheckType::Normal => first,
        CheckType::Advantage => if first >= second { first } else { second },
        CheckType::Disadvantage => if first <= second { first } else { second },
    }
}

/// `r` is the check of `modifier` against `dc` in mode `mode` with the
/// dice `first` and, but in a normal roll, `second`.
pub open spec fn check_fits(r: CheckReport, modifier: i64, dc: u64, mode: CheckType, first: usize, second: usize) -> bool {
    &&& r.mode == mode
    &&& r.modifier == modifier
    &&& r.dc == dc
    &&& r.first == first
    &&& r.second == if mode == CheckType::Normal { None } else { Some(second) }
    &&& r.kept == kept_die(mode, first as int, second as int)
    &&& r.total == r.kept + modifier
    &&& r.passed == (r.total >= dc)
}

/// The check of `modifier` against `dc` in mode `mode`, given the dice;
/// `second` counts only with advantage or disadvantage.
pub fn resolve_check(modifier: i64, dc: u64, mode: CheckType, first: usize, second: usize) -> (r: CheckReport)
    requires
        1 <= first <= CHECK_DIE,
        1 <= second <= CHECK_DIE,
    ensures
        check_fits(r, modifier, dc, mode, first, second),
{
    let kept = match mode {
        CheckType::Normal => first,
        CheckType::Advantage => if first >= second { first } else { second },
        CheckType::Disadvantage => if first <= second { first } else { second },
    };
    let total = kept as i128 + modifier as i128;
    let passed = total >= 0 && total as u128 >= dc as u128;
    let second = match mode {
        CheckType::Normal => None,
        _ => Some(second),
    };
    CheckReport { mode, modifier, dc, first, second, kept, total, passed }
}

/// Rolls a check of `modifier` against `dc` in mode `mode`.
pub fn check_roll(modifier: i64, dc: u64, mode: CheckType) -> (r: CheckReport)
    ensures
        exists|first: usize, second: usize|
            1 <= first <= CHECK_DIE && 1 <= second <= CHECK_DIE && check_fits(
                r,
                modifier,
                dc,
                mode,
                first,
                second,
            ),
{
    let first = draw(1, CHECK_DIE);
    let second = match mode {
        CheckType::Normal => 1,
        _ => draw(1, CHECK_DIE),
    };
    let r = resolve_check(modifier, dc, mode, first, second);
    assert(check_fits(r, modifier, dc, mode, first, second));
    r
}

} // verus!
