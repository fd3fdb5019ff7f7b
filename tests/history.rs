use dndsh::state::{State, MAX_HISTORY};

#[test]
fn history_starts_empty() {
    let s = State::default();
    assert_eq!(s.hist_len(), 0);
    assert_eq!(s.get_cmd(0), None);
}

#[test]
fn get_cmd_by_position() {
    let mut s = State::new();
    s.add_to_history("roll 1d6");
    s.add_to_history("version");
    assert_eq!(s.hist_len(), 2);
    assert_eq!(s.get_cmd(0), Some("roll 1d6".to_string()));
    assert_eq!(s.get_cmd(1), Some("version".to_string()));
    assert_eq!(s.get_cmd(2), None);
}

#[test]
fn history_keeps_latest_thousand() {
    let mut s = State::new();
    for i in 0..1005 {
        s.add_to_history(&format!("line {}", i));
    }
    assert_eq!(s.hist_len(), MAX_HISTORY);
    assert_eq!(s.hist_len(), 1000);
    assert_eq!(s.get_cmd(0), Some("line 5".to_string()));
    assert_eq!(s.get_cmd(999), Some("line 1004".to_string()));
    assert_eq!(s.get_cmd(1000), None);
}

#[test]
fn history_at_exactly_bound() {
    let mut s = State::new();
    for i in 0..1000 {
        s.add_to_history(&format!("l{}", i));
    }
    assert_eq!(s.hist_len(), 1000);
    assert_eq!(s.get_cmd(0), Some("l0".to_string()));
    s.add_to_history("next");
    assert_eq!(s.hist_len(), 1000);
    assert_eq!(s.get_cmd(0), Some("l1".to_string()));
}

#[test]
fn render_recent_numbers_from_one() {
    let mut s = State::new();
    for i in 0..60 {
        s.add_to_history(&format!("c{}", i));
    }
    let r = s.render_recent(50);
    assert_eq!(r.len(), 50);
    assert_eq!(r[0].number, 11);
    assert_eq!(r[0].line, "c10");
    assert_eq!(r[49].number, 60);
    assert_eq!(r[49].line, "c59");
}

#[test]
fn render_recent_short_history() {
    let mut s = State::new();
    s.add_to_history("a");
    s.add_to_history("b");
    let r = s.render_recent(50);
    assert_eq!(r.len(), 2);
    assert_eq!((r[0].number, r[0].line.as_str()), (1, "a"));
    assert_eq!((r[1].number, r[1].line.as_str()), (2, "b"));
}
