//! Completing a command name from what has been typed of it.
use vstd::prelude::*;
use crate::text::chars_of;

verus! {

/// The command names offered for completion, in the order offered.
pub open spec fn command_names() -> Seq<Seq<char>> {
    seq!["roll"@, "check"@, "history"@, "version"@, "exit"@, "quit"@]
}

pub open spec fn is_prefix(w: Seq<char>, c: Seq<char>) -> bool {
    w.len() <= c.len() && c.take(w.len() as int) == w
}

/// The names of `names` that start with `w`, in order.
pub open spec fn completions_of(names: Seq<Seq<char>>, w: Seq<char>) -> Seq<Seq<char>>
    decreases names.len(),
{
    if names.len() == 0 {
        Seq::empty()
    } else {
        let rest = completions_of(names.drop_last(), w);
        if is_prefix(w, names.last()) {
            rest.push(names.last())
        } else {
            rest
        }
    }
}

fn starts_with(c: &[char], w: &[char]) -> (r: bool)
    ensures
        r == is_prefix(w@, c@),
{
    if w.len() > c.len() {
        return false;
    }
    let mut i: usize = 0;
    while i < w.len()
        invariant
            w@.len() <= c@.len(),
            i <= w@.len(),
            c@.take(i as int) == w@.take(i as int),
        decreases w@.len() - i,
    {
        if c[i] != w[i] {
            assert(c@.take(w@.len() as int)[i as int] == c@[i as int]);
            return false;
        }
        assert(c@.take(i + 1) =~= w@.take(i + 1));
        i += 1;
    }
    assert(w@.take(i as int) =~= w@);
    true
}

fn command_list() -> (r: Vec<String>)
    ensures
        r@.map_values(|s: String| s@) == command_names(),
{
    let r = vec![
        "roll".to_owned(),
        "check".to_owned(),
        "history".to_owned(),
        "version".to_owned(),
        "exit".to_owned(),
        "quit".to_owned(),
    ];
    assert(r@.map_values(|s: String| s@) =~= command_names());
    r
}

/// Completes command names for the shell's line editor.
pub struct DndshCompleter;

impl DndshCompleter {
    /// The command names that start with `word`, in order; `None` when
    /// there are none.
    pub fn complete(&self, word: &str) -> (r: Option<Vec<String>>)
        ensures
            r is None <==> completions_of(command_names(), word@).len() == 0,
            r is Some ==> r->0@.map_values(|s: String| s@) == completions_of(command_names(), word@),
    {
        let names = command_list();
        let w = chars_of(word);
        let ghost ns = names@.map_values(|s: String| s@);
        let mut found: Vec<String> = Vec::new();
        let mut i: usize = 0;
        while i < names.len()
            invariant
                i <= names@.len(),
                ns == names@.map_values(|s: String| s@),
                ns == command_names(),
                w@ == word@,
                found@.map_values(|s: String| s@) == completions_of(ns.take(i as int), w@),
            decreases names@.len() - i,
        {
            let c = chars_of(names[i].as_str());
            assert(ns.take(i + 1).drop_last() =~= ns.take(i as int));
            assert(ns.take(i + 1).last() == c@);
            if starts_with(c.as_slice(), w.as_slice()) {
                let ghost before = found@;
                found.push(names[i].clone());
                assert(found@.map_values(|s: String| s@) =~= before.map_values(|s: String| s@).push(c@));
            }
            i += 1;
        }
        assert(ns.take(i as int) =~= ns);
        if found.len() == 0 {
            None
        } else {
            Some(found)
        }
    }
}

} // verus!
