use dndsh::completer::DndshCompleter;
use dndsh::dice::DieOutcome;
use dndsh::man;
use dndsh::parser::{parse, ParseResult, Report};
use dndsh::state::State;

fn run(line: &str, state: &mut State) -> (ParseResult, Vec<Report>) {
    let mut out = Vec::new();
    let r = parse(line, state, &mut out);
    (r, out)
}

#[test]
fn blank_line_is_not_recorded() {
    let mut s = State::new();
    assert_eq!(run("", &mut s).0, ParseResult::Cont(false));
    assert_eq!(run("   ", &mut s).0, ParseResult::Cont(false));
}

#[test]
fn end_to_end_commands() {
    let mut s = State::new();
    assert!(matches!(run("check abc", &mut s).0, ParseResult::InvalidArgs(_)));
    assert_eq!(run("quit", &mut s).0, ParseResult::Exit);
    assert_eq!(run("exit", &mut s).0, ParseResult::Exit);
    assert_eq!(run("q", &mut s).0, ParseResult::Exit);
    assert_eq!(run("foobar", &mut s).0, ParseResult::InvalidCmd("foobar".to_string()));
    assert_eq!(run("version", &mut s).0, ParseResult::Cont(true));
    assert_eq!(run("hist", &mut s).0, ParseResult::Cont(true));
    assert_eq!(run("history", &mut s).0, ParseResult::Cont(true));
}

#[test]
fn missing_arguments() {
    let mut s = State::new();
    assert_eq!(
        run("roll", &mut s).0,
        ParseResult::InvalidArgs("Must specify at least one die in roll command".to_string())
    );
    assert_eq!(
        run("check", &mut s).0,
        ParseResult::InvalidArgs("Must specify at least one check in check command".to_string())
    );
    assert_eq!(
        run("check abc", &mut s).0,
        ParseResult::InvalidArgs("check must have argument in format <+-int>/<positive int>".to_string())
    );
}

#[test]
fn roll_reports_each_token() {
    let mut s = State::new();
    let (r, out) = run("roll 3d6 0d6 bad", &mut s);
    assert_eq!(r, ParseResult::Cont(true));
    assert_eq!(out.len(), 3);
    match &out[0] {
        Report::Die(d) => match &d.outcome {
            DieOutcome::Rolled(x) => assert_eq!(x.rolls.len(), 3),
            o => panic!("unexpected {:?}", o),
        },
        o => panic!("unexpected {:?}", o),
    }
    assert!(matches!(&out[1], Report::Die(d) if matches!(d.outcome, DieOutcome::ZeroCount)));
    assert!(matches!(&out[2], Report::Die(d) if matches!(d.outcome, DieOutcome::Invalid)));
}

#[test]
fn check_with_advantage_reports_two_dice() {
    let mut s = State::new();
    let (r, out) = run("check -3/10 -a", &mut s);
    assert_eq!(r, ParseResult::Cont(true));
    match &out[0] {
        Report::Check(c) => {
            let second = c.second.unwrap();
            assert_eq!(c.kept, c.first.max(second));
            assert_eq!(c.total, c.kept as i128 - 3);
        }
        o => panic!("unexpected {:?}", o),
    }
}

#[test]
fn recall_runs_without_recording() {
    let mut s = State::new();
    s.add_to_history("roll 1d6");
    s.add_to_history("version");
    let (r, out) = run("!1", &mut s);
    assert_eq!(r, ParseResult::Cont(false));
    assert!(matches!(&out[0], Report::Recalled(l) if l == "roll 1d6"));
    assert!(matches!(&out[1], Report::Die(_)));
    assert_eq!(s.hist_len(), 2);
    assert_eq!(
        run("!3", &mut s).0,
        ParseResult::InvalidArgs("Index is not in range [0, 2]".to_string())
    );
}

#[test]
fn recall_latest_and_first() {
    let mut s = State::new();
    s.add_to_history("roll 1d6");
    s.add_to_history("quit");
    assert_eq!(run("!", &mut s).0, ParseResult::Exit);
    assert_eq!(run("!0", &mut s).0, ParseResult::Cont(false));
    assert_eq!(run("!+1", &mut s).0, ParseResult::Cont(false));
}

#[test]
fn recall_errors() {
    let mut s = State::new();
    assert_eq!(
        run("!", &mut s).0,
        ParseResult::InvalidCmd("No items in history".to_string())
    );
    s.add_to_history("foobar");
    assert_eq!(
        run("!x", &mut s).0,
        ParseResult::InvalidArgs("Index must be a valid number".to_string())
    );
    assert_eq!(
        run("!-1", &mut s).0,
        ParseResult::InvalidArgs("Index must be a valid number".to_string())
    );
    assert_eq!(run("!1", &mut s).0, ParseResult::InvalidCmd("foobar".to_string()));
}

#[test]
fn recall_of_a_recall_is_refused() {
    let mut s = State::new();
    s.add_to_history("!1");
    assert_eq!(
        run("!1", &mut s).0,
        ParseResult::InvalidArgs("A recalled command cannot recall another".to_string())
    );
}

#[test]
fn history_command_lists_recent() {
    let mut s = State::new();
    s.add_to_history("roll 1d6");
    let (_, out) = run("history", &mut s);
    match &out[0] {
        Report::History(h) => {
            assert_eq!(h.len(), 1);
            assert_eq!((h[0].number, h[0].line.as_str()), (1, "roll 1d6"));
        }
        o => panic!("unexpected {:?}", o),
    }
}

#[test]
fn completer_candidates() {
    let c = DndshCompleter;
    assert_eq!(c.complete("").unwrap().len(), 6);
    assert_eq!(c.complete("q"), Some(vec!["quit".to_string()]));
    assert_eq!(c.complete("ex"), Some(vec!["exit".to_string()]));
    assert_eq!(c.complete("z"), None);
}

#[test]
fn man_pages() {
    assert_eq!(man::parse(&vec![]), ParseResult::InvalidArgs("must specify command".to_string()));
    assert_eq!(man::parse(&vec!["roll".to_string()]), ParseResult::InvalidCmd("roll".to_string()));
}
