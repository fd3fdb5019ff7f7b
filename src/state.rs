//! The session's bounded command history.
use vstd::prelude::*;
use std::collections::VecDeque;

verus! {

/// Most lines the history keeps; the oldest go first.
pub const MAX_HISTORY: usize = 1000;

/// How many of the latest lines a history listing shows.
pub const HISTORY_WINDOW: usize = 50;

/// The history after `line` is appended to `h`.
pub open spec fn append_line(h: Seq<Seq<char>>, line: Seq<char>) -> Seq<Seq<char>> {
    if h.len() < MAX_HISTORY {
        h.push(line)
    } else {
        h.drop_first().push(line)
    }
}

/// The history after each of `lines` is appended to `h`, in order.
pub open spec fn append_all(h: Seq<Seq<char>>, lines: Seq<Seq<char>>) -> Seq<Seq<char>>
    decreases lines.len(),
{
    if lines.len() == 0 {
        h
    } else {
        append_line(append_all(h, lines.drop_last()), lines.last())
    }
}

/// One line of a history listing: its position counted from one, and the line.
#[derive(Debug)]
pub struct HistoryEntry {
    pub number: usize,
    pub line: String,
}

/// The shell session's state: the lines entered so far, oldest first.
pub struct State {
    history: VecDeque<String>,
}

impl State {
    /// The history as a sequence of lines, oldest first.
    pub closed spec fn hist(&self) -> Seq<Seq<char>> {
        self.history@.map_values(|s: String| s@)
    }

    /// The history never holds more than `MAX_HISTORY` lines.
    pub closed spec fn wf(&self) -> bool {
        self.history@.len() <= MAX_HISTORY
    }

    /// A session with an empty history.
    pub fn new() -> (r: State)
        ensures
            r.wf(),
            r.hist() == Seq::<Seq<char>>::empty(),
    {
        let r = State { history: VecDeque::new() };
        assert(r.hist() =~= Seq::<Seq<char>>::empty());
        r
    }

    /// The line at zero-based position `idx`, if there is one.
    pub fn get_cmd(&self, idx: usize) -> (r: Option<String>)
        ensures
            r is Some <==> idx < self.hist().len(),
            r is Some ==> r->0@ == self.hist()[idx as int],
    {
        if idx < self.history.len() {
            Some(self.history[idx].clone())
        } else {
            None
        }
    }

    /// Number of lines held.
    pub fn hist_len(&self) -> (r: usize)
        ensures
            r == self.hist().len(),
    {
        self.history.len()
    }

    /// Appends `cmd`, dropping the oldest line when the history is full.
    pub fn add_to_history(&mut self, cmd: &str)
        requires
            old(self).wf(),
        ensures
            final(self).wf(),
            final(self).hist() == append_line(old(self).hist(), cmd@),
    {
        let ghost before = self.hist();
        if self.history.len() >= MAX_HISTORY {
            let _ = self.history.pop_front();
        }
        self.history.push_back(cmd.to_owned());
        assert(self.hist() =~= append_line(before, cmd@));
    }

    /// The latest `window` lines (all of them if there are fewer), oldest
    /// first, each with its position in the history counted from one.
    pub fn render_recent(&self, window: usize) -> (r: Vec<HistoryEntry>)
        requires
            self.wf(),
        ensures
            listing_fits(self.hist(), window as int, r@),
    {
        let len = self.history.len();
        let start = if len > window { len - window } else { 0 };
        let mut r: Vec<HistoryEntry> = Vec::new();
        let mut k: usize = start;
        while k < len
            invariant
                len == self.hist().len(),
                len <= MAX_HISTORY,
                start == recent_start(len as int, window as int),
                start <= k <= len,
                r@.len() == k - start,
                forall|i: int|
                    0 <= i < r@.len() ==> {
                        &&& (#[trigger] r@[i]).number == start + i + 1
                        &&& r@[i].line@ == self.hist()[start + i]
                    },
            decreases len - k,
        {
            r.push(HistoryEntry { number: k + 1, line: self.history[k].clone() });
            k += 1;
        }
        r
    }
}

impl Default for State {
    fn default() -> (r: State)
        ensures
            r.wf(),
            r.hist() == Seq::<Seq<char>>::empty(),
    {
        State::new()
    }
}

/// `entries` lists the latest `window` lines of `hist` (all of them if
/// there are fewer), oldest first, each with its position counted from one.
pub open spec fn listing_fits(hist: Seq<Seq<char>>, window: int, entries: Seq<HistoryEntry>) -> bool {
    let start = recent_start(hist.len() as int, window);
    &&& entries.len() == hist.len() - start
    &&& forall|i: int|
        0 <= i < entries.len() ==> {
            &&& (#[trigger] entries[i]).number == start + i + 1
            &&& entries[i].line@ == hist[start + i]
        }
}

/// First position shown by a listing of the latest `window` of `len` lines.
pub open spec fn recent_start(len: int, window: int) -> int {
    if len > window {
        len - window
    } else {
        0
    }
}

/// Once at least `MAX_HISTORY` lines have been appended, the history holds
/// exactly the latest `MAX_HISTORY` of them, oldest first.
pub proof fn lemma_history_keeps_latest(h: Seq<Seq<char>>, lines: Seq<Seq<char>>)
    requires
        h.len() <= MAX_HISTORY,
        lines.len() >= MAX_HISTORY,
    ensures
        append_all(h, lines) == lines.subrange(lines.len() - MAX_HISTORY, lines.len() as int),
        append_all(h, lines).len() == MAX_HISTORY,
        append_all(h, lines)[0] == lines[lines.len() - MAX_HISTORY],
{
    lemma_append_all_shape(h, lines);
}

proof fn lemma_append_all_shape(h: Seq<Seq<char>>, lines: Seq<Seq<char>>)
    requires
        h.len() <= MAX_HISTORY,
    ensures
        append_all(h, lines).len() == if h.len() + lines.len() <= MAX_HISTORY {
            (h.len() + lines.len()) as int
        } else {
            MAX_HISTORY as int
        },
        append_all(h, lines) == (h + lines).subrange(
            h.len() + lines.len() - append_all(h, lines).len(),
            (h.len() + lines.len()) as int,
        ),
    decreases lines.len(),
{
    let all = h + lines;
    if lines.len() == 0 {
        assert(all =~= h);
        assert(all.subrange(0, h.len() as int) =~= h);
    } else {
        let init = lines.drop_last();
        lemma_append_all_shape(h, init);
        let prev = append_all(h, init);
        let pall = h + init;
        assert(all =~= pall.push(lines.last()));
        let n = all.len() as int;
        if prev.len() < MAX_HISTORY {
            assert(prev.push(lines.last()) =~= all.subrange(n - prev.len() - 1, n));
        } else {
            assert(prev.drop_first().push(lines.last()) =~= all.subrange(n - prev.len(), n));
        }
    }
}

} // verus!
