//! Dice notation (`<count>d<sides>`) and rolling dice.
use vstd::prelude::*;
use crate::digits::{digit_run_end, narrow, is_digit, lemma_run_end, parse_digits, run_end, value};
use crate::random::draw;
use crate::text::chars_of;

verus! {

/// A dice pattern starts at `s`: digits, then `d`, then a digit.
pub open spec fn dice_at(t: Seq<char>, s: int) -> bool {
    let e = run_end(t, s);
    &&& 0 <= s < t.len()
    &&& is_digit(t[s])
    &&& e + 1 < t.len()
    &&& t[e] == 'd'
    &&& is_digit(t[e + 1])
}

/// `t` holds a dice pattern somewhere.
pub open spec fn has_dice(t: Seq<char>) -> bool {
    exists|s: int| dice_at(t, s)
}

/// Where the leftmost dice pattern of `t` starts.
pub open spec fn dice_start(t: Seq<char>) -> int
    recommends
        has_dice(t),
{
    choose|s: int| dice_at(t, s) && forall|u: int| 0 <= u < s ==> !dice_at(t, u)
}

/// What a dice token asks for.
#[derive(PartialEq, Eq, Structural, Clone, Copy, Debug)]
pub enum DiceToken {
    /// It holds no `<digits>d<digits>` pattern.
    Invalid,
    /// It asks for no dice.
    ZeroCount,
    /// It asks for dice with no sides.
    ZeroSides,
    /// Count or sides, or their product, does not fit in `usize`.
    TooLarge,
    /// `count` dice with `sides` sides each.
    Dice { count: usize, sides: usize },
}

/// What the dice token `t` asks for, read from its leftmost dice pattern.
pub open spec fn dice_token(t: Seq<char>) -> DiceToken {
    if !has_dice(t) {
        DiceToken::Invalid
    } else {
        let s = dice_start(t);
        let e = run_end(t, s);
        let count = value(t.subrange(s, e));
        let sides = value(t.subrange(e + 1, run_end(t, e + 1)));
        if count == 0 {
            DiceToken::ZeroCount
        } else if sides == 0 {
            DiceToken::ZeroSides
        } else if count * sides > usize::MAX {
            DiceToken::TooLarge
        } else {
            DiceToken::Dice { count: count as usize, sides: sides as usize }
        }
    }
}

/// A token that asks for dice asks for at least one die of at least one
/// side, and for no more pips than `usize` counts.
pub proof fn lemma_dice_bounds(t: Seq<char>)
    ensures
        dice_token(t) matches DiceToken::Dice { count, sides } ==> count >= 1 && sides >= 1
            && count * sides <= usize::MAX,
{
    if has_dice(t) {
        let s = dice_start(t);
        let e = run_end(t, s);
        let count = value(t.subrange(s, e));
        let sides = value(t.subrange(e + 1, run_end(t, e + 1)));
        if count != 0 && sides != 0 && count * sides <= usize::MAX {
            assert(count <= usize::MAX && sides <= usize::MAX) by (nonlinear_arith)
                requires
                    count >= 1,
                    sides >= 1,
                    count * sides <= usize::MAX,
            ;
        }
    }
}

/// Reads the dice token `t`.
pub fn parse_dice(t: &[char]) -> (r: DiceToken)
    ensures
        r == dice_token(t@),
{
    let mut s: usize = 0;
    while s < t.len()
        invariant
            s <= t@.len(),
            forall|u: int| 0 <= u < s ==> !dice_at(t@, u),
        decreases t@.len() - s,
    {
        if '0' <= t[s] && t[s] <= '9' {
            let e = digit_run_end(t, s);
            if e < t.len() && t[e] == 'd' && e + 1 < t.len() && '0' <= t[e + 1] && t[e + 1] <= '9' {
                assert(dice_at(t@, s as int));
                let e2 = digit_run_end(t, e + 1);
                proof {
                    lemma_run_end(t@, s as int);
                    lemma_run_end(t@, e + 1);
                    let w = dice_start(t@);
                    assert(dice_at(t@, w) && forall|u: int| 0 <= u < w ==> !dice_at(t@, u));
                    assert(w == s);
                }
                let count = narrow(parse_digits(t, s, e));
                let sides = narrow(parse_digits(t, e + 1, e2));
                match (count, sides) {
                    (Some(c), Some(d)) => {
                        if c == 0 {
                            return DiceToken::ZeroCount;
                        } else if d == 0 {
                            return DiceToken::ZeroSides;
                        } else if c > usize::MAX / d {
                            proof {
                                assert(c * d > usize::MAX) by (nonlinear_arith)
                                    requires
                                        c > usize::MAX / d,
                                        d > 0,
                                ;
                            }
                            return DiceToken::TooLarge;
                        } else {
                            proof {
                                assert(c * d <= usize::MAX) by (nonlinear_arith)
                                    requires
                                        c <= usize::MAX / d,
                                        d > 0,
                                ;
                            }
                            return DiceToken::Dice { count: c, sides: d };
                        }
                    },
                    (None, Some(d)) => {
                        if d == 0 {
                            return DiceToken::ZeroSides;
                        }
                        proof {
                            let cv = value(t@.subrange(s as int, e as int));
                            assert(cv * d > usize::MAX) by (nonlinear_arith)
                                requires
                                    d >= 1,
                                    cv > usize::MAX,
                            ;
                        }
                        return DiceToken::TooLarge;
                    },
                    (None, None) => {
                        proof {
                            let cv = value(t@.subrange(s as int, e as int));
                            let sv = value(t@.subrange(e + 1, e2 as int));
                            assert(cv * sv > usize::MAX) by (nonlinear_arith)
                                requires
                                    sv > usize::MAX,
                                    cv > usize::MAX,
                            ;
                        }
                        return DiceToken::TooLarge;
                    },
                    (Some(c), None) => {
                        if c == 0 {
                            return DiceToken::ZeroCount;
                        }
                        proof {
                            let sv = value(t@.subrange(e + 1, e2 as int));
                            assert(c * sv > usize::MAX) by (nonlinear_arith)
                                requires
                                    c >= 1,
                                    sv > usize::MAX,
                            ;
                        }
                        return DiceToken::TooLarge;
                    },
                }
            }
        }
        s += 1;
    }
    DiceToken::Invalid
}

pub open spec fn seq_sum(s: Seq<usize>) -> int
    decreases s.len(),
{
    if s.len() == 0 {
        0
    } else {
        seq_sum(s.drop_last()) + s.last()
    }
}

pub open spec fn seq_min(s: Seq<usize>) -> int
    decreases s.len(),
{
    if s.len() <= 1 {
        if s.len() == 0 { 0 } else { s[0] as int }
    } else {
        let m = seq_min(s.drop_last());
        if s.last() < m { s.last() as int } else { m }
    }
}

pub open spec fn seq_max(s: Seq<usize>) -> int
    decreases s.len(),
{
    if s.len() <= 1 {
        if s.len() == 0 { 0 } else { s[0] as int }
    } else {
        let m = seq_max(s.drop_last());
        if s.last() > m { s.last() as int } else { m }
    }
}

/// The smallest and the largest of a non-empty sequence are among its
/// values and bound every value.
pub proof fn lemma_min_max(s: Seq<usize>)
    requires
        s.len() > 0,
    ensures
        forall|i: int| 0 <= i < s.len() ==> seq_min(s) <= #[trigger] s[i] <= seq_max(s),
        exists|i: int| 0 <= i < s.len() && s[i] == seq_min(s),
        exists|i: int| 0 <= i < s.len() && s[i] == seq_max(s),
    decreases s.len(),
{
    if s.len() > 1 {
        let init = s.drop_last();
        lemma_min_max(init);
        let i0 = choose|i: int| 0 <= i < init.len() && init[i] == seq_min(init);
        let i1 = choose|i: int| 0 <= i < init.len() && init[i] == seq_max(init);
        assert(s[i0] == init[i0] && s[i1] == init[i1]);
        assert forall|i: int| 0 <= i < s.len() implies seq_min(s) <= #[trigger] s[i] <= seq_max(s) by {
            if i < init.len() {
                assert(s[i] == init[i]);
            }
        }
        let last = s.len() - 1;
        if s.last() < seq_min(init) {
            assert(s[last] == seq_min(s));
        } else {
            assert(s[i0] == seq_min(s));
        }
        if s.last() > seq_max(init) {
            assert(s[last] == seq_max(s));
        } else {
            assert(s[i1] == seq_max(s));
        }
    } else {
        assert(s[0] == seq_min(s) && s[0] == seq_max(s));
    }
}

proof fn lemma_sum_bound(s: Seq<usize>, bound: int)
    requires
        forall|i: int| 0 <= i < s.len() ==> #[trigger] s[i] <= bound,
        bound >= 0,
    ensures
        0 <= seq_sum(s) <= s.len() * bound,
    decreases s.len(),
{
    if s.len() > 0 {
        let init = s.drop_last();
        assert forall|i: int| 0 <= i < init.len() implies #[trigger] init[i] <= bound by {
            assert(init[i] == s[i]);
        }
        lemma_sum_bound(init, bound);
        assert(s.last() <= bound);
        assert((init.len() + 1) * bound == init.len() * bound + bound) by (nonlinear_arith);
    }
}

/// The dice rolled for one token, with their total, smallest and largest.
#[derive(Debug)]
pub struct DiceRoll {
    pub rolls: Vec<usize>,
    pub sum: usize,
    pub min: usize,
    pub max: usize,
}

/// Total, smallest and largest of `rolls`.
pub fn summarize(rolls: &Vec<usize>) -> (r: (usize, usize, usize))
    requires
        rolls@.len() > 0,
        seq_sum(rolls@) <= usize::MAX,
        forall|i: int| 0 <= i < rolls@.len() ==> #[trigger] rolls@[i] >= 1,
    ensures
        r.0 == seq_sum(rolls@),
        r.1 == seq_min(rolls@),
        r.2 == seq_max(rolls@),
{
    let mut sum: usize = 0;
    let mut min: usize = 0;
    let mut max: usize = 0;
    let mut i: usize = 0;
    while i < rolls.len()
        invariant
            i <= rolls@.len(),
            seq_sum(rolls@) <= usize::MAX,
            forall|k: int| 0 <= k < rolls@.len() ==> #[trigger] rolls@[k] >= 1,
            sum == seq_sum(rolls@.take(i as int)),
            i > 0 ==> min == seq_min(rolls@.take(i as int)),
            i > 0 ==> max == seq_max(rolls@.take(i as int)),
            i == 0 ==> min == 0 && max == 0,
            i > 0 ==> min >= 1,
        decreases rolls@.len() - i,
    {
        let n = rolls[i];
        proof {
            let t = rolls@.take(i + 1);
            assert(t.drop_last() =~= rolls@.take(i as int));
            lemma_sum_prefix(rolls@, i + 1);
            if i == 0 {
                assert(t.len() == 1 && t[0] == rolls@[0]);
            }
        }
        sum = sum + n;
        min = if min != 0 && min <= n { min } else { n };
        max = if max >= n { max } else { n };
        i += 1;
    }
    assert(rolls@.take(i as int) =~= rolls@);
    (sum, min, max)
}

proof fn lemma_sum_prefix(s: Seq<usize>, k: int)
    requires
        0 <= k <= s.len(),
    ensures
        seq_sum(s.take(k)) <= seq_sum(s),
    decreases s.len() - k,
{
    if k < s.len() {
        lemma_sum_prefix(s, k + 1);
        assert(s.take(k + 1).drop_last() =~= s.take(k));
    } else {
        assert(s.take(k) =~= s);
    }
}

/// Rolls `count` dice with `sides` sides each.
pub fn roll_dice(count: usize, sides: usize) -> (r: DiceRoll)
    requires
        count >= 1,
        sides >= 1,
        count * sides <= usize::MAX,
    ensures
        r.rolls@.len() == count,
        forall|i: int| 0 <= i < count ==> 1 <= #[trigger] r.rolls@[i] <= sides,
        r.sum == seq_sum(r.rolls@),
        r.min == seq_min(r.rolls@),
        r.max == seq_max(r.rolls@),
{
    let mut rolls: Vec<usize> = Vec::new();
    let mut i: usize = 0;
    while i < count
        invariant
            i <= count,
            rolls@.len() == i,
            sides >= 1,
            forall|k: int| 0 <= k < i ==> 1 <= #[trigger] rolls@[k] <= sides,
        decreases count - i,
    {
        let n = draw(1, sides);
        rolls.push(n);
        i += 1;
    }
    proof {
        lemma_sum_bound(rolls@, sides as int);
    }
    let (sum, min, max) = summarize(&rolls);
    DiceRoll { rolls, sum, min, max }
}

/// How rolled dice are shown: all of them when there are fewer than
/// `SHOW_ALL_BELOW`, else the first and last `SHOWN_EACH_END` with the count
/// of those left out between them.
pub const SHOW_ALL_BELOW: usize = 32;

pub const SHOWN_EACH_END: usize = 5;

#[derive(Debug)]
pub struct RollDisplay {
    pub head: Vec<usize>,
    pub skipped: Option<usize>,
    pub tail: Vec<usize>,
}

impl DiceRoll {
    /// The rolls as they are shown.
    pub fn shown(&self) -> (r: RollDisplay)
        ensures
            self.rolls@.len() < SHOW_ALL_BELOW ==> r.head@ == self.rolls@ && r.skipped is None
                && r.tail@.len() == 0,
            self.rolls@.len() >= SHOW_ALL_BELOW ==> {
                let n = self.rolls@.len() as int;
                &&& r.head@ == self.rolls@.take(SHOWN_EACH_END as int)
                &&& r.skipped == Some((n - 2 * SHOWN_EACH_END) as usize)
                &&& r.tail@ == self.rolls@.subrange(n - SHOWN_EACH_END, n)
            },
    {
        let n = self.rolls.len();
        let mut head: Vec<usize> = Vec::new();
        let mut tail: Vec<usize> = Vec::new();
        let (head_len, tail_from) = if n < SHOW_ALL_BELOW {
            (n, n)
        } else {
            (SHOWN_EACH_END, n - SHOWN_EACH_END)
        };
        let mut i: usize = 0;
        while i < head_len
            invariant
                head_len <= n == self.rolls@.len(),
                i <= head_len,
                head@ == self.rolls@.take(i as int),
            decreases head_len - i,
        {
            head.push(self.rolls[i]);
            i += 1;
        }
        let mut j: usize = tail_from;
        while j < n
            invariant
                tail_from <= j <= n == self.rolls@.len(),
                tail@ == self.rolls@.subrange(tail_from as int, j as int),
            decreases n - j,
        {
            tail.push(self.rolls[j]);
            j += 1;
        }
        let skipped = if n < SHOW_ALL_BELOW {
            None
        } else {
            Some(n - 2 * SHOWN_EACH_END)
        };
        assert(self.rolls@.take(n as int) =~= self.rolls@);
        RollDisplay { head, skipped, tail }
    }
}

/// What became of one token of a roll command.
#[derive(Debug)]
pub enum DieOutcome {
    /// The token is no dice notation.
    Invalid,
    /// The token asks for no dice.
    ZeroCount,
    /// The token asks for dice with no sides.
    ZeroSides,
    /// The token asks for more than can be counted.
    TooLarge,
    /// The dice were rolled.
    Rolled(DiceRoll),
}

/// One token of a roll command and what became of it.
#[derive(Debug)]
pub struct DieReport {
    pub token: String,
    pub outcome: DieOutcome,
}

/// `o` is what the token `t` calls for: an error of the same kind, or
/// `count` rolls of `sides`-sided dice with their true statistics.
pub open spec fn outcome_fits(t: Seq<char>, o: DieOutcome) -> bool {
    match dice_token(t) {
        DiceToken::Invalid => o is Invalid,
        DiceToken::ZeroCount => o is ZeroCount,
        DiceToken::ZeroSides => o is ZeroSides,
        DiceToken::TooLarge => o is TooLarge,
        DiceToken::Dice { count, sides } => match o {
            DieOutcome::Rolled(d) => {
                &&& d.rolls@.len() == count
                &&& forall|i: int| 0 <= i < count ==> 1 <= #[trigger] d.rolls@[i] <= sides
                &&& d.sum == seq_sum(d.rolls@)
                &&& d.min == seq_min(d.rolls@)
                &&& d.max == seq_max(d.rolls@)
            },
            _ => false,
        },
    }
}

/// Rolls the dice that the token `die` asks for.
pub fn roll_token(die: &String) -> (r: DieReport)
    ensures
        r.token@ == die@,
        outcome_fits(die@, r.outcome),
{
    let cs = chars_of(die.as_str());
    let plan = parse_dice(cs.as_slice());
    proof {
        lemma_dice_bounds(die@);
    }
    let outcome = match plan {
        DiceToken::Invalid => DieOutcome::Invalid,
        DiceToken::ZeroCount => DieOutcome::ZeroCount,
        DiceToken::ZeroSides => DieOutcome::ZeroSides,
        DiceToken::TooLarge => DieOutcome::TooLarge,
        DiceToken::Dice { count, sides } => DieOutcome::Rolled(roll_dice(count, sides)),
    };
    DieReport { token: die.clone(), outcome }
}

/// A rolled token's report is exact: as many dice as the token asks for,
/// each between one and its sides, and the total, smallest and largest of
/// exactly those dice.
pub proof fn lemma_roll_report(t: Seq<char>, o: DieOutcome)
    requires
        outcome_fits(t, o),
    ensures
        dice_token(t) matches DiceToken::Dice { count, sides } ==> (o matches DieOutcome::Rolled(d)
            && d.rolls@.len() == count && count >= 1
            && (forall|i: int| 0 <= i < count ==> 1 <= #[trigger] d.rolls@[i] <= sides)
            && d.sum == seq_sum(d.rolls@)
            && (forall|i: int| 0 <= i < count ==> d.min <= #[trigger] d.rolls@[i] <= d.max)
            && (exists|i: int| 0 <= i < count && d.rolls@[i] == d.min)
            && (exists|i: int| 0 <= i < count && d.rolls@[i] == d.max)),
        !(dice_token(t) is Dice) ==> !(o is Rolled),
{
    lemma_dice_bounds(t);
    if let DieOutcome::Rolled(d) = o {
        if dice_token(t) is Dice {
            lemma_min_max(d.rolls@);
        }
    }
}

} // verus!
