//! The command dispatcher.
use vstd::prelude::*;
use crate::check::{
    check_fits, check_mode, check_roll, check_token, mode_of, parse_check, CheckReport, CheckToken,
    CHECK_DIE,
};
use crate::dice::{outcome_fits, roll_token, DieReport};
use crate::digits::{all_digits, decimal, decimal_chars, narrow, parse_digits, value};
use crate::state::{listing_fits, HistoryEntry, State, HISTORY_WINDOW};
use crate::text::{chars_of, string_of};
use crate::tokenizer::{get_args, tokens};

verus! {

/// The program's name and version, as `version` shows them.
pub const VERSION: &'static str = "dndsh v0.1.0";

/// How many recalls deep a line may lead: a recalled line may not itself
/// be a recall.
pub const RECALL_DEPTH: usize = 1;

pub const MSG_ROLL_NEEDS_DIE: &'static str = "Must specify at least one die in roll command";

pub const MSG_CHECK_NEEDS_ARG: &'static str = "Must specify at least one check in check command";

pub const MSG_CHECK_FORMAT: &'static str = "check must have argument in format <+-int>/<positive int>";

pub const MSG_CHECK_RANGE: &'static str = "check modifier must fit in 64 signed bits and DC in 64 unsigned bits";

pub const MSG_EMPTY_HISTORY: &'static str = "No items in history";

pub const MSG_BAD_INDEX: &'static str = "Index must be a valid number";

pub const MSG_RANGE_PREFIX: &'static str = "Index is not in range [0, ";

pub const MSG_RANGE_SUFFIX: &'static str = "]";

pub const MSG_NESTED_RECALL: &'static str = "A recalled command cannot recall another";

/// What the dispatcher made of one input line.
#[derive(Debug, PartialEq, Eq)]
pub enum ParseResult {
    /// Ends the session.
    Exit,
    /// The session goes on; the flag says whether the line is to be
    /// recorded in the history.
    Cont(bool),
    /// The command is unknown, or cannot run; the text says why.
    InvalidCmd(String),
    /// The command's arguments are wrong; the text says why.
    InvalidArgs(String),
}

/// A `ParseResult` with its texts as character sequences.
pub enum Outcome {
    Exit,
    Cont(bool),
    InvalidCmd(Seq<char>),
    InvalidArgs(Seq<char>),
}

impl View for ParseResult {
    type V = Outcome;

    open spec fn view(&self) -> Outcome {
        match self {
            ParseResult::Exit => Outcome::Exit,
            ParseResult::Cont(b) => Outcome::Cont(*b),
            ParseResult::InvalidCmd(s) => Outcome::InvalidCmd(s@),
            ParseResult::InvalidArgs(s) => Outcome::InvalidArgs(s@),
        }
    }
}

/// What a command shows the user, in order.
#[derive(Debug)]
pub enum Report {
    /// A recalled line, shown before it runs.
    Recalled(String),
    /// One token of a roll command.
    Die(DieReport),
    /// A rolled check.
    Check(CheckReport),
    /// The latest lines of the history.
    History(Vec<HistoryEntry>),
    /// The program's name and version.
    Version,
    /// The session ends.
    Farewell,
}

/// The history position that the text after `!` names: empty is the
/// latest line; else an optional `+` and decimal digits counting from one,
/// where zero names the first line too. `None` when it is no such number.
pub open spec fn recall_index(rest: Seq<char>, len: nat) -> Option<int> {
    let ds = if rest.len() > 0 && rest[0] == '+' { rest.drop_first() } else { rest };
    if rest.len() == 0 {
        Some(len - 1)
    } else if ds.len() > 0 && all_digits(ds) && value(ds) <= usize::MAX {
        Some(if value(ds) == 0 { 0 } else { value(ds) - 1 })
    } else {
        None
    }
}

/// The message for a recall position out of the history's range.
pub open spec fn range_message(len: nat) -> Seq<char> {
    MSG_RANGE_PREFIX@ + decimal(len) + MSG_RANGE_SUFFIX@
}

/// What recalling with `!rest` gives, with history `hist`, `depth` recalls
/// left.
pub open spec fn recall_outcome(rest: Seq<char>, hist: Seq<Seq<char>>, depth: nat) -> Outcome
    decreases depth, 0nat,
{
    if hist.len() == 0 {
        Outcome::InvalidCmd(MSG_EMPTY_HISTORY@)
    } else {
        match recall_index(rest, hist.len()) {
            None => Outcome::InvalidArgs(MSG_BAD_INDEX@),
            Some(idx) => if idx >= hist.len() {
                Outcome::InvalidArgs(range_message(hist.len()))
            } else if depth == 0 {
                Outcome::InvalidArgs(MSG_NESTED_RECALL@)
            } else {
                match outcome(hist[idx], hist, (depth - 1) as nat) {
                    Outcome::Cont(_) => Outcome::Cont(false),
                    o => o,
                }
            },
        }
    }
}

/// What the line `line` gives, with history `hist`, `depth` recalls left.
pub open spec fn outcome(line: Seq<char>, hist: Seq<Seq<char>>, depth: nat) -> Outcome
    decreases depth, 1nat,
{
    let args = tokens(line);
    if args.len() == 0 {
        Outcome::Cont(false)
    } else {
        let cmd = args[0];
        if cmd.len() > 0 && cmd[0] == '!' {
            recall_outcome(cmd.drop_first(), hist, depth)
        } else if cmd == "roll"@ {
            if args.len() >= 2 {
                Outcome::Cont(true)
            } else {
                Outcome::InvalidArgs(MSG_ROLL_NEEDS_DIE@)
            }
        } else if cmd == "check"@ {
            if args.len() >= 2 {
                match check_token(args[1]) {
                    CheckToken::Invalid => Outcome::InvalidArgs(MSG_CHECK_FORMAT@),
                    CheckToken::OutOfRange => Outcome::InvalidArgs(MSG_CHECK_RANGE@),
                    CheckToken::Check { .. } => Outcome::Cont(true),
                }
            } else {
                Outcome::InvalidArgs(MSG_CHECK_NEEDS_ARG@)
            }
        } else if cmd == "hist"@ || cmd == "history"@ || cmd == "version"@ {
            Outcome::Cont(true)
        } else if cmd == "exit"@ || cmd == "quit"@ || cmd == "q"@ {
            Outcome::Exit
        } else {
            Outcome::InvalidCmd(cmd)
        }
    }
}

/// `reps` is what recalling with `!rest` shows, with history `hist` and
/// `depth` recalls left: the recalled line, then what it shows; nothing
/// when the recall fails.
pub open spec fn recall_reports_fit(rest: Seq<char>, hist: Seq<Seq<char>>, depth: nat, reps: Seq<Report>) -> bool
    decreases depth, 0nat,
{
    if hist.len() == 0 {
        reps.len() == 0
    } else {
        match recall_index(rest, hist.len()) {
            None => reps.len() == 0,
            Some(idx) => if idx >= hist.len() || depth == 0 {
                reps.len() == 0
            } else {
                &&& reps.len() >= 1
                &&& reps[0] matches Report::Recalled(l) && l@ == hist[idx]
                &&& reports_fit(hist[idx], hist, (depth - 1) as nat, reps.drop_first())
            },
        }
    }
}

/// `reps` is what the line `line` shows, with history `hist` and `depth`
/// recalls left.
pub open spec fn reports_fit(line: Seq<char>, hist: Seq<Seq<char>>, depth: nat, reps: Seq<Report>) -> bool
    decreases depth, 1nat,
{
    let args = tokens(line);
    if args.len() == 0 {
        reps.len() == 0
    } else {
        let cmd = args[0];
        if cmd.len() > 0 && cmd[0] == '!' {
            recall_reports_fit(cmd.drop_first(), hist, depth, reps)
        } else if cmd == "roll"@ {
            if args.len() >= 2 {
                dice_reports_fit(args.drop_first(), reps)
            } else {
                reps.len() == 0
            }
        } else if cmd == "check"@ {
            if args.len() >= 2 {
                check_reports_fit(args[1], args.subrange(2, args.len() as int), reps)
            } else {
                reps.len() == 0
            }
        } else if cmd == "hist"@ || cmd == "history"@ {
            &&& reps.len() == 1
            &&& reps[0] matches Report::History(es) && listing_fits(hist, HISTORY_WINDOW as int, es@)
        } else if cmd == "version"@ {
            reps == seq![Report::Version]
        } else if cmd == "exit"@ || cmd == "quit"@ || cmd == "q"@ {
            reps == seq![Report::Farewell]
        } else {
            reps.len() == 0
        }
    }
}

/// `a` and `b` hold the same characters.
pub fn same_chars(a: &[char], b: &[char]) -> (r: bool)
    ensures
        r == (a@ == b@),
{
    if a.len() != b.len() {
        return false;
    }
    let mut i: usize = 0;
    while i < a.len()
        invariant
            a@.len() == b@.len(),
            i <= a@.len(),
            a@.take(i as int) == b@.take(i as int),
        decreases a@.len() - i,
    {
        if a[i] != b[i] {
            assert(a@[i as int] != b@[i as int]);
            return false;
        }
        assert(a@.take(i + 1) =~= b@.take(i + 1));
        i += 1;
    }
    assert(a@ =~= a@.take(i as int));
    assert(b@ =~= b@.take(i as int));
    true
}

/// `w` spells the word `lit`.
fn is_word(w: &Vec<char>, lit: &str) -> (r: bool)
    ensures
        r == (w@ == lit@),
{
    let l = chars_of(lit);
    same_chars(w.as_slice(), l.as_slice())
}

/// `reps` reports each of the dice tokens `dice`, in order.
pub open spec fn dice_reports_fit(dice: Seq<Seq<char>>, reps: Seq<Report>) -> bool {
    &&& reps.len() == dice.len()
    &&& forall|i: int|
        0 <= i < dice.len() ==> match #[trigger] reps[i] {
            Report::Die(d) => d.token@ == dice[i] && outcome_fits(dice[i], d.outcome),
            _ => false,
        }
}

/// Rolls each dice token of `dice`, reporting each to `out`.
pub fn roll(dice: &[String], out: &mut Vec<Report>) -> (r: ParseResult)
    ensures
        r@ == Outcome::Cont(true),
        final(out)@.len() >= old(out)@.len(),
        final(out)@.take(old(out)@.len() as int) == old(out)@,
        dice_reports_fit(dice@.map_values(|t: String| t@), final(out)@.skip(old(out)@.len() as int)),
{
    let ghost start = out@.len();
    let ghost first = out@;
    let ghost dv = dice@.map_values(|t: String| t@);
    let mut i: usize = 0;
    while i < dice.len()
        invariant
            i <= dice@.len(),
            dv == dice@.map_values(|t: String| t@),
            start == first.len(),
            out@.len() == start + i,
            out@.take(start as int) == first,
            dice_reports_fit(dv.take(i as int), out@.skip(start as int)),
        decreases dice@.len() - i,
    {
        let d = roll_token(&dice[i]);
        let ghost before = out@;
        out.push(Report::Die(d));
        assert(out@.take(start as int) =~= before.take(start as int));
        assert(out@.skip(start as int) =~= before.skip(start as int).push(Report::Die(d)));
        assert(dv.take(i + 1) =~= dv.take(i as int).push(dice@[i as int]@));
        i += 1;
    }
    assert(dv.take(i as int) =~= dv);
    ParseResult::Cont(true)
}

/// `reps` reports a check with token `t` and flags `flags`: one rolled
/// check, with dice between one and twenty, when the token holds a check;
/// nothing otherwise.
pub open spec fn check_reports_fit(t: Seq<char>, flags: Seq<Seq<char>>, reps: Seq<Report>) -> bool {
    match check_token(t) {
        CheckToken::Check { modifier, dc } => {
            &&& reps.len() == 1
            &&& reps[0] matches Report::Check(c)
            &&& exists|first: usize, second: usize|
                1 <= first <= CHECK_DIE && 1 <= second <= CHECK_DIE && check_fits(
                    c,
                    modifier,
                    dc,
                    mode_of(flags),
                    first,
                    second,
                )
        },
        _ => reps.len() == 0,
    }
}

/// Runs a check with token `arg` and flags `opts`, reporting it to `out`.
pub fn check(arg: &str, opts: &[String], out: &mut Vec<Report>) -> (r: ParseResult)
    ensures
        r@ == match check_token(arg@) {
            CheckToken::Invalid => Outcome::InvalidArgs(MSG_CHECK_FORMAT@),
            CheckToken::OutOfRange => Outcome::InvalidArgs(MSG_CHECK_RANGE@),
            CheckToken::Check { .. } => Outcome::Cont(true),
        },
        final(out)@.len() >= old(out)@.len(),
        final(out)@.take(old(out)@.len() as int) == old(out)@,
        check_reports_fit(arg@, opts@.map_values(|f: String| f@), final(out)@.skip(old(out)@.len() as int)),
{
    let t = chars_of(arg);
    let ghost before = out@;
    assert(out@.skip(before.len() as int) =~= Seq::<Report>::empty());
    match parse_check(t.as_slice()) {
        CheckToken::Invalid => ParseResult::InvalidArgs(MSG_CHECK_FORMAT.to_owned()),
        CheckToken::OutOfRange => ParseResult::InvalidArgs(MSG_CHECK_RANGE.to_owned()),
        CheckToken::Check { modifier, dc } => {
            let mode = check_mode(opts);
            let report = check_roll(modifier, dc, mode);
            let ghost fv = opts@.map_values(|f: String| f@);
            proof {
                let (a, b) = choose|a: usize, b: usize|
                    1 <= a <= CHECK_DIE && 1 <= b <= CHECK_DIE && check_fits(report, modifier, dc, mode, a, b);
                assert(mode == mode_of(fv));
                assert(check_fits(report, modifier, dc, mode_of(fv), a, b));
            }
            out.push(Report::Check(report));
            assert(out@.take(before.len() as int) =~= before);
            assert(out@.skip(before.len() as int) =~= seq![Report::Check(report)]);
            ParseResult::Cont(true)
        },
    }
}

/// Whether `t[from..to]` is all decimal digits.
fn digits_only(t: &[char], from: usize, to: usize) -> (r: bool)
    requires
        from <= to <= t@.len(),
    ensures
        r == all_digits(t@.subrange(from as int, to as int)),
{
    let mut i = from;
    while i < to
        invariant
            from <= i <= to <= t@.len(),
            all_digits(t@.subrange(from as int, i as int)),
        decreases to - i,
    {
        if !('0' <= t[i] && t[i] <= '9') {
            assert(t@.subrange(from as int, to as int)[i - from] == t@[i as int]);
            return false;
        }
        assert forall|k: int| 0 <= k < i + 1 - from implies crate::digits::is_digit(
            #[trigger] t@.subrange(from as int, i + 1)[k],
        ) by {
            if k < i - from {
                assert(t@.subrange(from as int, i + 1)[k] == t@.subrange(from as int, i as int)[k]);
            }
        }
        i += 1;
    }
    true
}

/// The position that the text `rest` after `!` names in a history of
/// `len` lines, or `None` when it is no number.
fn recall_position(rest: &[char], len: usize) -> (r: Option<usize>)
    requires
        len > 0,
    ensures
        r is Some <==> recall_index(rest@, len as nat) is Some,
        r is Some ==> r->0 == recall_index(rest@, len as nat)->0,
{
    if rest.len() == 0 {
        return Some(len - 1);
    }
    let from: usize = if rest[0] == '+' { 1 } else { 0 };
    let ghost ds = if rest@.len() > 0 && rest@[0] == '+' { rest@.drop_first() } else { rest@ };
    assert(ds =~= rest@.subrange(from as int, rest@.len() as int));
    if from >= rest.len() || !digits_only(rest, from, rest.len()) {
        return None;
    }
    match narrow(parse_digits(rest, from, rest.len())) {
        None => None,
        Some(n) => Some(if n == 0 { 0 } else { n - 1 }),
    }
}

/// The message for a recall position out of a history of `len` lines.
fn out_of_range(len: usize) -> (r: String)
    ensures
        r@ == range_message(len as nat),
{
    let mut msg = chars_of(MSG_RANGE_PREFIX);
    let mut num = decimal_chars(len);
    let mut end = chars_of(MSG_RANGE_SUFFIX);
    msg.append(&mut num);
    msg.append(&mut end);
    string_of(msg.as_slice())
}

/// Runs again the history line that the text `rest` after `!` names; the
/// line is never recorded a second time.
pub fn do_last(rest: &[char], state: &mut State, out: &mut Vec<Report>, depth: usize) -> (r: ParseResult)
    requires
        old(state).wf(),
    ensures
        r@ == recall_outcome(rest@, old(state).hist(), depth as nat),
        *final(state) == *old(state),
        final(out)@.len() >= old(out)@.len(),
        final(out)@.take(old(out)@.len() as int) == old(out)@,
        recall_reports_fit(rest@, old(state).hist(), depth as nat, final(out)@.skip(old(out)@.len() as int)),
    decreases depth, 0usize,
{
    let len = state.hist_len();
    assert(out@.skip(out@.len() as int) =~= Seq::<Report>::empty());
    if len == 0 {
        return ParseResult::InvalidCmd(MSG_EMPTY_HISTORY.to_owned());
    }
    let idx = match recall_position(rest, len) {
        None => {
            return ParseResult::InvalidArgs(MSG_BAD_INDEX.to_owned());
        },
        Some(i) => i,
    };
    match state.get_cmd(idx) {
        None => ParseResult::InvalidArgs(out_of_range(len)),
        Some(cmd) => {
            if depth == 0 {
                return ParseResult::InvalidArgs(MSG_NESTED_RECALL.to_owned());
            }
            let ghost before = out@;
            let shown = cmd.clone();
            out.push(Report::Recalled(shown));
            let ghost mid = out@;
            let res = parse_at(cmd.as_str(), state, out, depth - 1);
            assert(out@.skip(before.len() as int).drop_first() =~= out@.skip(mid.len() as int));
            assert(out@.skip(before.len() as int)[0] == mid[before.len() as int]);
            assert(out@.take(before.len() as int) =~= mid.take(mid.len() as int).take(before.len() as int));
            assert(mid.take(mid.len() as int) =~= mid);
            assert(mid.take(before.len() as int) =~= before);
            match res {
                ParseResult::Cont(_) => ParseResult::Cont(false),
                other => other,
            }
        },
    }
}

/// Runs the line `input`, with at most `depth` recalls, reporting what it
/// shows to `out`.
pub fn parse_at(input: &str, state: &mut State, out: &mut Vec<Report>, depth: usize) -> (r: ParseResult)
    requires
        old(state).wf(),
    ensures
        r@ == outcome(input@, old(state).hist(), depth as nat),
        *final(state) == *old(state),
        final(out)@.len() >= old(out)@.len(),
        final(out)@.take(old(out)@.len() as int) == old(out)@,
        reports_fit(input@, old(state).hist(), depth as nat, final(out)@.skip(old(out)@.len() as int)),
    decreases depth, 1usize,
{
    let args = get_args(input);
    let ghost argv = args@.map_values(|t: String| t@);
    assert(argv == tokens(input@));
    assert(out@.skip(out@.len() as int) =~= Seq::<Report>::empty());
    if args.len() == 0 {
        return ParseResult::Cont(false);
    }
    assert(argv[0] == args@[0]@);
    let cmd = chars_of(args[0].as_str());
    let ghost before = out@;
    if cmd.len() > 0 && cmd[0] == '!' {
        let (_, rest) = cmd.as_slice().split_at(1);
        assert(rest@ =~= cmd@.drop_first());
        return do_last(rest, state, out, depth);
    }
    if is_word(&cmd, "roll") {
        if args.len() >= 2 {
            let (_, dice) = args.as_slice().split_at(1);
            assert(dice@.map_values(|t: String| t@) =~= argv.drop_first());
            let r = roll(dice, out);
            assert(out@.take(before.len() as int) == before);
            r
        } else {
            ParseResult::InvalidArgs(MSG_ROLL_NEEDS_DIE.to_owned())
        }
    } else if is_word(&cmd, "check") {
        if args.len() >= 2 {
            assert(argv[1] == args@[1]@);
            let (_, rest) = args.as_slice().split_at(2);
            assert(rest@.map_values(|t: String| t@) =~= argv.subrange(2, argv.len() as int));
            check(args[1].as_str(), rest, out)
        } else {
            ParseResult::InvalidArgs(MSG_CHECK_NEEDS_ARG.to_owned())
        }
    } else if is_word(&cmd, "hist") || is_word(&cmd, "history") {
        let entries = state.render_recent(HISTORY_WINDOW);
        out.push(Report::History(entries));
        assert(out@.take(before.len() as int) =~= before);
        assert(out@.skip(before.len() as int) =~= seq![Report::History(entries)]);
        ParseResult::Cont(true)
    } else if is_word(&cmd, "version") {
        out.push(Report::Version);
        assert(out@.take(before.len() as int) =~= before);
        assert(out@.skip(before.len() as int) =~= seq![Report::Version]);
        ParseResult::Cont(true)
    } else if is_word(&cmd, "exit") || is_word(&cmd, "quit") || is_word(&cmd, "q") {
        out.push(Report::Farewell);
        assert(out@.take(before.len() as int) =~= before);
        assert(out@.skip(before.len() as int) =~= seq![Report::Farewell]);
        ParseResult::Exit
    } else {
        ParseResult::InvalidCmd(args[0].clone())
    }
}

/// Runs the line `input` against the session's history, reporting what it
/// shows to `out`. A line recalled with `!` runs once and is not recorded
/// again; a recalled line may not itself recall.
pub fn parse(input: &str, state: &mut State, out: &mut Vec<Report>) -> (r: ParseResult)
    requires
        old(state).wf(),
    ensures
        r@ == outcome(input@, old(state).hist(), RECALL_DEPTH as nat),
        *final(state) == *old(state),
        final(out)@.len() >= old(out)@.len(),
        final(out)@.take(old(out)@.len() as int) == old(out)@,
        reports_fit(input@, old(state).hist(), RECALL_DEPTH as nat, final(out)@.skip(old(out)@.len() as int)),
{
    parse_at(input, state, out, RECALL_DEPTH)
}

/// A recall never asks to be recorded: whatever the recalled line gives,
/// a line whose first token starts with `!` never gives `Cont(true)`, so a
/// recalled line is never added to the history a second time.
pub proof fn lemma_recall_not_recorded(line: Seq<char>, hist: Seq<Seq<char>>, depth: nat)
    requires
        tokens(line).len() > 0,
        tokens(line)[0][0] == '!',
    ensures
        outcome(line, hist, depth) != Outcome::Cont(true),
{
    crate::tokenizer::lemma_tokens_are_runs(line);
}

} // verus!
