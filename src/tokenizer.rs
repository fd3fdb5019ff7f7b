//! Splitting an input line into whitespace-separated tokens.
use vstd::prelude::*;
use crate::text::{chars_of, string_of};

verus! {

/// Unicode `White_Space` characters.
pub open spec fn is_space(c: char) -> bool {
    ('\u{9}' <= c && c <= '\u{d}') || c == ' ' || c == '\u{85}' || c == '\u{a0}'
        || c == '\u{1680}' || ('\u{2000}' <= c && c <= '\u{200a}') || c == '\u{2028}'
        || c == '\u{2029}' || c == '\u{202f}' || c == '\u{205f}' || c == '\u{3000}'
}

pub fn is_space_char(c: char) -> (r: bool)
    ensures
        r == is_space(c),
{
    ('\u{9}' <= c && c <= '\u{d}') || c == ' ' || c == '\u{85}' || c == '\u{a0}'
        || c == '\u{1680}' || ('\u{2000}' <= c && c <= '\u{200a}') || c == '\u{2028}'
        || c == '\u{2029}' || c == '\u{202f}' || c == '\u{205f}' || c == '\u{3000}'
}

/// The maximal runs of non-whitespace characters of `s`, left to right.
pub open spec fn tokens(s: Seq<char>) -> Seq<Seq<char>>
    decreases s.len(),
{
    if s.len() == 0 {
        Seq::empty()
    } else {
        let init = s.drop_last();
        let c = s.last();
        let ts = tokens(init);
        if is_space(c) {
            ts
        } else if init.len() > 0 && !is_space(init.last()) {
            ts.update(ts.len() - 1, ts.last().push(c))
        } else {
            ts.push(seq![c])
        }
    }
}

/// Number of positions of `s` at which a run of non-whitespace starts.
pub open spec fn run_count(s: Seq<char>) -> nat
    decreases s.len(),
{
    if s.len() == 0 {
        0
    } else {
        let init = s.drop_last();
        let starts = !is_space(s.last()) && (init.len() == 0 || is_space(init.last()));
        run_count(init) + if starts { 1nat } else { 0nat }
    }
}

/// Every token is non-empty and holds no whitespace, and there are as many
/// tokens as runs of non-whitespace; a blank line has no tokens.
pub proof fn lemma_tokens_are_runs(s: Seq<char>)
    ensures
        tokens(s).len() == run_count(s),
        forall|i: int| 0 <= i < tokens(s).len() ==> tokens(s)[i].len() > 0,
        forall|i: int, j: int|
            0 <= i < tokens(s).len() && 0 <= j < tokens(s)[i].len() ==> !is_space(
                #[trigger] tokens(s)[i][j],
            ),
        (forall|k: int| 0 <= k < s.len() ==> is_space(#[trigger] s[k])) ==> tokens(s).len()
            == 0,
        s.len() > 0 && !is_space(s.last()) ==> tokens(s).len() > 0,
    decreases s.len(),
{
    if s.len() > 0 {
        let init = s.drop_last();
        lemma_tokens_are_runs(init);
        if forall|k: int| 0 <= k < s.len() ==> is_space(#[trigger] s[k]) {
            assert forall|k: int| 0 <= k < init.len() implies is_space(#[trigger] init[k]) by {
                assert(init[k] == s[k]);
            }
        }
        let ts = tokens(init);
        if !is_space(s.last()) && init.len() > 0 && !is_space(init.last()) {
            let t2 = tokens(s);
            assert forall|i: int, j: int|
                0 <= i < t2.len() && 0 <= j < t2[i].len() implies !is_space(#[trigger] t2[i][j]) by {
                if i == ts.len() - 1 {
                    if j < ts.last().len() {
                        assert(t2[i][j] == ts[i][j]);
                    }
                } else {
                    assert(t2[i] == ts[i]);
                }
            }
        }
    }
}

/// Splits `input` into its whitespace-separated tokens.
pub fn get_args(input: &str) -> (r: Vec<String>)
    ensures
        r@.map_values(|t: String| t@) == tokens(input@),
{
    let cs = chars_of(input);
    let mut out: Vec<String> = Vec::new();
    let mut cur: Vec<char> = Vec::new();
    let mut i: usize = 0;
    while i < cs.len()
        invariant
            cs@ == input@,
            i <= cs@.len(),
            cur@.len() > 0 <==> (i > 0 && !is_space(cs@[i - 1])),
            cur@.len() > 0 ==> out@.map_values(|t: String| t@).push(cur@) == tokens(cs@.take(i as int)),
            cur@.len() == 0 ==> out@.map_values(|t: String| t@) == tokens(cs@.take(i as int)),
        decreases cs@.len() - i,
    {
        let c = cs[i];
        let ghost prev = cs@.take(i as int);
        let ghost next = cs@.take(i + 1);
        assert(next.drop_last() =~= prev);
        assert(next.last() == c);
        if is_space_char(c) {
            if cur.len() > 0 {
                let t = string_of(cur.as_slice());
                out.push(t);
                cur = Vec::new();
            }
        } else {
            let ghost before = out@.map_values(|t: String| t@);
            let ghost old_cur = cur@;
            cur.push(c);
            if cur.len() > 1 {
                assert(prev.len() > 0 && !is_space(prev.last()));
                assert(tokens(prev) == before.push(old_cur));
                assert(before.push(old_cur).update(before.len() as int, old_cur.push(c))
                    =~= before.push(cur@));
            } else {
                assert(cur@ =~= seq![c]);
                assert(prev.len() > 0 ==> prev.last() == cs@[i - 1]);
                assert(before.push(cur@) =~= tokens(next));
            }
        }
        i += 1;
    }
    if cur.len() > 0 {
        let t = string_of(cur.as_slice());
        out.push(t);
    }
    assert(cs@.take(cs@.len() as int) =~= cs@);
    assert(out@.map_values(|t: String| t@) =~= tokens(input@));
    out
}

} // verus!
