//! Decimal numerals: reading and writing them.
use vstd::prelude::*;

verus! {

pub open spec fn is_digit(c: char) -> bool {
    '0' <= c && c <= '9'
}

pub open spec fn digit_value(c: char) -> nat {
    (c as nat - '0' as nat) as nat
}

/// The number that the digits `ds` spell, most significant first.
pub open spec fn value(ds: Seq<char>) -> nat
    decreases ds.len(),
{
    if ds.len() == 0 {
        0
    } else {
        value(ds.drop_last()) * 10 + digit_value(ds.last())
    }
}

pub open spec fn all_digits(ds: Seq<char>) -> bool {
    forall|i: int| 0 <= i < ds.len() ==> is_digit(#[trigger] ds[i])
}

/// Position just past the run of digits of `t` that starts at `s`.
pub open spec fn run_end(t: Seq<char>, s: int) -> int
    decreases t.len() - s,
{
    if 0 <= s < t.len() && is_digit(t[s]) {
        run_end(t, s + 1)
    } else {
        s
    }
}

pub proof fn lemma_run_end(t: Seq<char>, s: int)
    requires
        0 <= s <= t.len(),
    ensures
        s <= run_end(t, s) <= t.len(),
        all_digits(t.subrange(s, run_end(t, s))),
        run_end(t, s) < t.len() ==> !is_digit(t[run_end(t, s)]),
    decreases t.len() - s,
{
    if s < t.len() && is_digit(t[s]) {
        lemma_run_end(t, s + 1);
        let e = run_end(t, s);
        assert forall|i: int| 0 <= i < e - s implies is_digit(#[trigger] t.subrange(s, e)[i]) by {
            if i > 0 {
                assert(t.subrange(s, e)[i] == t.subrange(s + 1, e)[i - 1]);
            }
        }
    }
}

/// End of the run of digits of `t` from `s`.
pub fn digit_run_end(t: &[char], s: usize) -> (e: usize)
    requires
        s <= t@.len(),
    ensures
        e == run_end(t@, s as int),
{
    let mut e = s;
    while e < t.len() && '0' <= t[e] && t[e] <= '9'
        invariant
            s <= e <= t@.len(),
            run_end(t@, s as int) == run_end(t@, e as int),
        decreases t@.len() - e,
    {
        e += 1;
    }
    e
}

/// The number spelt by the digits `t[from..to]`, or `None` when it
/// exceeds `u128::MAX`.
pub fn parse_digits(t: &[char], from: usize, to: usize) -> (r: Option<u128>)
    requires
        from <= to <= t@.len(),
        all_digits(t@.subrange(from as int, to as int)),
    ensures
        r is Some <==> value(t@.subrange(from as int, to as int)) <= u128::MAX,
        r is Some ==> r->0 == value(t@.subrange(from as int, to as int)),
{
    let mut acc: u128 = 0;
    let mut i = from;
    while i < to
        invariant
            from <= i <= to <= t@.len(),
            all_digits(t@.subrange(from as int, to as int)),
            acc == value(t@.subrange(from as int, i as int)),
        decreases to - i,
    {
        let ghost ds = t@.subrange(from as int, i as int + 1);
        assert(ds.drop_last() =~= t@.subrange(from as int, i as int));
        assert(t@.subrange(from as int, to as int)[i - from] == t@[i as int]);
        let d = (t[i] as u32 - '0' as u32) as u128;
        if acc > (u128::MAX - d) / 10 {
            proof {
                lemma_value_grows(t@.subrange(from as int, to as int), (i - from + 1) as int);
                assert(t@.subrange(from as int, to as int).take(i - from + 1) =~= ds);
            }
            return None;
        }
        acc = acc * 10 + d;
        i += 1;
    }
    assert(t@.subrange(from as int, i as int) =~= t@.subrange(from as int, to as int));
    Some(acc)
}

/// A numeral's prefixes spell no larger numbers than the numeral itself.
proof fn lemma_value_grows(ds: Seq<char>, k: int)
    requires
        0 <= k <= ds.len(),
    ensures
        value(ds.take(k)) <= value(ds),
    decreases ds.len() - k,
{
    if k < ds.len() {
        lemma_value_grows(ds, k + 1);
        assert(ds.take(k + 1).drop_last() =~= ds.take(k));
    } else {
        assert(ds.take(k) =~= ds);
    }
}

/// The decimal numeral of `n`, without leading zeros.
pub open spec fn decimal(n: nat) -> Seq<char>
    decreases n,
{
    if n < 10 {
        seq![(n + '0' as nat) as char]
    } else {
        decimal(n / 10).push(((n % 10) + '0' as nat) as char)
    }
}

/// `x` when it fits in `usize`.
pub fn narrow(x: Option<u128>) -> (r: Option<usize>)
    ensures
        r is Some <==> (x is Some && x->0 <= usize::MAX),
        r is Some ==> r->0 == x->0,
{
    match x {
        Some(v) => if v <= usize::MAX as u128 {
            Some(v as usize)
        } else {
            None
        },
        None => None,
    }
}

/// Writes `n` in decimal.
pub fn decimal_chars(n: usize) -> (r: Vec<char>)
    ensures
        r@ == decimal(n as nat),
    decreases n,
{
    let d = ((n % 10) as u32 + '0' as u32) as u8 as char;
    if n < 10 {
        vec![d]
    } else {
        let mut r = decimal_chars(n / 10);
        r.push(d);
        r
    }
}

} // verus!
