//! The rank table's text form: a header line, then one `<role id>
//! <required xp>` line per tier. Lines that do not read as a tier are
//! skipped.
//!
//! The required experience is a decimal with at most three digits after
//! the point (`12`, `0.5`, `10.125`); it is kept in thousandths.
use vstd::prelude::*;
use crate::rank::Rank;

verus! {

/// ASCII whitespace: space, tab, line feed, vertical tab, form feed,
/// carriage return.
pub open spec fn is_ws(b: u8) -> bool {
    b == 32 || (9 <= b && b <= 13)
}

pub open spec fn is_digit(b: u8) -> bool {
    48 <= b && b <= 57
}

pub open spec fn all_digits(s: Seq<u8>) -> bool {
    forall|i: int| 0 <= i < s.len() ==> is_digit(#[trigger] s[i])
}

/// The value of a string of decimal digits.
pub open spec fn digits_value(s: Seq<u8>) -> nat
    decreases s.len(),
{
    if s.len() == 0 {
        0
    } else {
        digits_value(s.drop_last()) * 10 + (s.last() - 48) as nat
    }
}

/// The end of the whitespace run that starts at `i` (before `end`).
pub open spec fn skip_ws(s: Seq<u8>, i: int, end: int) -> int
    decreases end - i,
{
    if 0 <= i < end && is_ws(s[i]) {
        skip_ws(s, i + 1, end)
    } else {
        i
    }
}

/// The end of the token that starts at `i` (before `end`).
pub open spec fn token_end(s: Seq<u8>, i: int, end: int) -> int
    decreases end - i,
{
    if 0 <= i < end && !is_ws(s[i]) {
        token_end(s, i + 1, end)
    } else {
        i
    }
}

/// The first `.` from `i` on, or `end`.
pub open spec fn first_dot(s: Seq<u8>, i: int, end: int) -> int
    decreases end - i,
{
    if 0 <= i < end && s[i] != 46 {
        first_dot(s, i + 1, end)
    } else {
        i
    }
}

/// `s[a..b]` read as a `u64`: one or more digits whose value fits.
pub open spec fn number_in(s: Seq<u8>, a: int, b: int) -> Option<u64> {
    let t = s.subrange(a, b);
    if a < b && all_digits(t) && digits_value(t) <= u64::MAX {
        Some(digits_value(t) as u64)
    } else {
        None
    }
}

/// The weight of the last fraction digit, in thousandths.
pub open spec fn fraction_scale(n: int) -> nat {
    if n == 1 {
        100
    } else if n == 2 {
        10
    } else {
        1
    }
}

/// `s[a..b]` read as an amount of experience in thousandths: digits,
/// optionally followed by a point and one to three digits.
pub open spec fn xp_in(s: Seq<u8>, a: int, b: int) -> Option<u64> {
    let p = first_dot(s, a, b);
    let whole = s.subrange(a, p);
    let frac = s.subrange(p + 1, b);
    let frac_value = if p == b {
        0
    } else {
        digits_value(frac) * fraction_scale(b - p - 1)
    };
    let v = digits_value(whole) * 1000 + frac_value;
    if a < p && all_digits(whole) && (p == b || (1 <= b - p - 1 <= 3 && all_digits(frac))) && v
        <= u64::MAX {
        Some(v as u64)
    } else {
        None
    }
}

/// The tier that `s[start..end]` describes: a role id and a required
/// amount, the first two whitespace-separated tokens; more are ignored.
pub open spec fn rank_in(s: Seq<u8>, start: int, end: int) -> Option<Rank> {
    let a0 = skip_ws(s, start, end);
    let e0 = token_end(s, a0, end);
    let a1 = skip_ws(s, e0, end);
    let e1 = token_end(s, a1, end);
    match (number_in(s, a0, e0), xp_in(s, a1, e1)) {
        (Some(id), Some(xp)) => Some(Rank { role_id: id, required_xp: xp }),
        _ => None,
    }
}

/// The tier that one line describes, if it reads as one.
pub open spec fn rank_of_line(line: Seq<u8>) -> Option<Rank> {
    rank_in(line, 0, line.len() as int)
}

proof fn lemma_digits_prefix(s: Seq<u8>, m: int)
    requires
        all_digits(s),
        0 <= m <= s.len(),
    ensures
        digits_value(s.subrange(0, m)) <= digits_value(s),
    decreases s.len(),
{
    if m < s.len() {
        assert(s.drop_last().subrange(0, m) == s.subrange(0, m));
        lemma_digits_prefix(s.drop_last(), m);
    } else {
        assert(s.subrange(0, m) == s);
    }
}

fn is_ws_exec(b: u8) -> (r: bool)
    ensures
        r == is_ws(b),
{
    b == 32 || (9 <= b && b <= 13)
}

/// `s[a..b]` read as a `u64`.
pub fn parse_digits(s: &[u8], a: usize, b: usize) -> (r: Option<u64>)
    requires
        a <= b <= s@.len(),
    ensures
        r == number_in(s@, a as int, b as int),
{
    if a == b {
        return None;
    }
    let mut acc: u64 = 0;
    let mut k: usize = a;
    while k < b
        invariant
            a <= k <= b <= s@.len(),
            all_digits(s@.subrange(a as int, k as int)),
            acc == digits_value(s@.subrange(a as int, k as int)),
        decreases b - k,
    {
        let c = s[k];
        let t = Ghost(s@.subrange(a as int, b as int));
        if !(48 <= c && c <= 57) {
            assert(t@[k - a] == c);
            return None;
        }
        assert(s@.subrange(a as int, k + 1).drop_last() == s@.subrange(a as int, k as int));
        let d: u64 = (c - 48) as u64;
        let next = match acc.checked_mul(10) {
            Some(m) => m.checked_add(d),
            None => None,
        };
        match next {
            Some(v) => {
                acc = v;
            },
            None => {
                proof {
                    if all_digits(t@) {
                        assert(t@.subrange(0, k + 1 - a) == s@.subrange(a as int, k + 1));
                        lemma_digits_prefix(t@, k + 1 - a);
                    }
                }
                return None;
            },
        }
        k += 1;
    }
    Some(acc)
}

fn skip_ws_exec(s: &[u8], i: usize, end: usize) -> (r: usize)
    requires
        i <= end <= s@.len(),
    ensures
        r as int == skip_ws(s@, i as int, end as int),
        i <= r <= end,
{
    let mut k = i;
    while k < end && is_ws_exec(s[k])
        invariant
            i <= k <= end <= s@.len(),
            skip_ws(s@, i as int, end as int) == skip_ws(s@, k as int, end as int),
        decreases end - k,
    {
        k += 1;
    }
    k
}

fn token_end_exec(s: &[u8], i: usize, end: usize) -> (r: usize)
    requires
        i <= end <= s@.len(),
    ensures
        r as int == token_end(s@, i as int, end as int),
        i <= r <= end,
{
    let mut k = i;
    while k < end && !is_ws_exec(s[k])
        invariant
            i <= k <= end <= s@.len(),
            token_end(s@, i as int, end as int) == token_end(s@, k as int, end as int),
        decreases end - k,
    {
        k += 1;
    }
    k
}

fn first_dot_exec(s: &[u8], i: usize, end: usize) -> (r: usize)
    requires
        i <= end <= s@.len(),
    ensures
        r as int == first_dot(s@, i as int, end as int),
        i <= r <= end,
{
    let mut k = i;
    while k < end && s[k] != 46
        invariant
            i <= k <= end <= s@.len(),
            first_dot(s@, i as int, end as int) == first_dot(s@, k as int, end as int),
        decreases end - k,
    {
        k += 1;
    }
    k
}

/// `s[a..b]` read as an amount of experience in thousandths.
pub fn parse_xp(s: &[u8], a: usize, b: usize) -> (r: Option<u64>)
    requires
        a <= b <= s@.len(),
    ensures
        r == xp_in(s@, a as int, b as int),
{
    let p = first_dot_exec(s, a, b);
    let whole = match parse_digits(s, a, p) {
        Some(w) => w,
        None => {
            return None;
        },
    };
    let whole_milli = match whole.checked_mul(1000) {
        Some(w) => w,
        None => {
            return None;
        },
    };
    if p == b {
        return Some(whole_milli);
    }
    let n = b - p - 1;
    if n < 1 || n > 3 {
        return None;
    }
    let frac = match parse_digits(s, p + 1, b) {
        Some(f) => f,
        None => {
            return None;
        },
    };
    let scale: u64 = if n == 1 {
        100
    } else if n == 2 {
        10
    } else {
        1
    };
    let frac_milli = match frac.checked_mul(scale) {
        Some(f) => f,
        None => {
            return None;
        },
    };
    whole_milli.checked_add(frac_milli)
}

fn rank_between(s: &[u8], start: usize, end: usize) -> (r: Option<Rank>)
    requires
        start <= end <= s@.len(),
    ensures
        r == rank_in(s@, start as int, end as int),
{
    let a0 = skip_ws_exec(s, start, end);
    let e0 = token_end_exec(s, a0, end);
    let a1 = skip_ws_exec(s, e0, end);
    let e1 = token_end_exec(s, a1, end);
    let id = parse_digits(s, a0, e0);
    let xp = parse_xp(s, a1, e1);
    match (id, xp) {
        (Some(role_id), Some(required_xp)) => Some(Rank { role_id, required_xp }),
        _ => None,
    }
}

/// Reads one line of the table as a tier: a role id and a required amount
/// of experience, separated by whitespace.
pub fn parse_rank_line(line: &[u8]) -> (r: Option<Rank>)
    ensures
        r == rank_of_line(line@),
{
    rank_between(line, 0, line.len())
}

/// The lines of a text, split at each line feed (`\n`, which no line
/// holds); a text without one is a single line.
pub open spec fn split_lines(s: Seq<u8>) -> Seq<Seq<u8>>
    decreases s.len(),
{
    if s.len() == 0 {
        seq![Seq::empty()]
    } else {
        let prev = split_lines(s.drop_last());
        if s.last() == 10 {
            prev.push(Seq::empty())
        } else {
            prev.update(prev.len() - 1, prev.last().push(s.last()))
        }
    }
}

/// The tiers that the lines describe, in order, skipping the lines that do
/// not read as one.
pub open spec fn ranks_of_lines(lines: Seq<Seq<u8>>) -> Seq<Rank>
    decreases lines.len(),
{
    if lines.len() == 0 {
        Seq::empty()
    } else {
        let prev = ranks_of_lines(lines.drop_last());
        match rank_of_line(lines.last()) {
            Some(r) => prev.push(r),
            None => prev,
        }
    }
}

/// The rank table that a text holds: every line after the header.
pub open spec fn rank_table(text: Seq<u8>) -> Seq<Rank> {
    ranks_of_lines(split_lines(text).drop_first())
}

proof fn lemma_split_lines_nonempty(s: Seq<u8>)
    ensures
        split_lines(s).len() >= 1,
    decreases s.len(),
{
    if s.len() > 0 {
        lemma_split_lines_nonempty(s.drop_last());
    }
}

/// Reads the rank table from its text: the first line is a header and is
/// not read; each later line that reads as a tier adds one, in order.
pub fn parse_rank_table(text: &[u8]) -> (r: Vec<Rank>)
    ensures
        r@ == rank_table(text@),
{
    let mut out: Vec<Rank> = Vec::new();
    let mut cur: Vec<u8> = Vec::new();
    let mut in_header = true;
    let mut k: usize = 0;
    while k < text.len()
        invariant
            k <= text@.len(),
            split_lines(text@.subrange(0, k as int)).len() >= 1,
            cur@ == split_lines(text@.subrange(0, k as int)).last(),
            in_header == (split_lines(text@.subrange(0, k as int)).len() == 1),
            !in_header ==> out@ == ranks_of_lines(
                split_lines(text@.subrange(0, k as int)).drop_last().drop_first(),
            ),
            in_header ==> out@.len() == 0,
        decreases text@.len() - k,
    {
        let ghost lines = split_lines(text@.subrange(0, k as int));
        assert(text@.subrange(0, k + 1).drop_last() == text@.subrange(0, k as int));
        let c = text[k];
        if c == 10 {
            if !in_header {
                let ghost x = lines.drop_first();
                assert(x.drop_last() == lines.drop_last().drop_first());
                assert(x.last() == cur@);
                if let Some(r) = parse_rank_line(cur.as_slice()) {
                    out.push(r);
                }
            } else {
                assert(lines.drop_first() == Seq::<Seq<u8>>::empty());
            }
            proof {
                let next = split_lines(text@.subrange(0, k + 1));
                assert(next.drop_last() == lines);
            }
            in_header = false;
            cur = Vec::new();
        } else {
            proof {
                let next = split_lines(text@.subrange(0, k + 1));
                assert(next.drop_last() == lines.drop_last());
            }
            cur.push(c);
        }
        k += 1;
    }
    assert(text@.subrange(0, k as int) == text@);
    let ghost lines = split_lines(text@);
    if in_header {
        assert(lines.drop_first() == Seq::<Seq<u8>>::empty());
    } else {
        let ghost x = lines.drop_first();
        assert(x.drop_last() == lines.drop_last().drop_first());
        assert(x.last() == cur@);
        if let Some(r) = parse_rank_line(cur.as_slice()) {
            out.push(r);
        }
    }
    out
}

} // verus!
