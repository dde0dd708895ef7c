//! The rank table: thresholds of required experience, and the queries that
//! place an amount of experience among them.
use vstd::prelude::*;

verus! {

/// One tier: the role that stands for it and the experience it requires,
/// in thousandths of a point.
#[derive(Clone, Copy, Debug, PartialEq, Eq, Structural)]
pub struct Rank {
    pub role_id: u64,
    pub required_xp: u64,
}

/// The rank lies in the band `(lo, hi]`; without `lo` the band is `[0, hi]`.
pub open spec fn in_band(r: Rank, lo: Option<u64>, hi: u64) -> bool {
    &&& r.required_xp <= hi
    &&& match lo {
        Some(l) => l < r.required_xp,
        None => true,
    }
}

/// Index `i` holds the first of the highest thresholds in the band.
pub open spec fn is_highest_in_band(ranks: Seq<Rank>, lo: Option<u64>, hi: u64, i: int) -> bool {
    &&& 0 <= i < ranks.len()
    &&& in_band(ranks[i], lo, hi)
    &&& forall|j: int|
        0 <= j < ranks.len() && in_band(ranks[j], lo, hi) ==> ranks[j].required_xp
            <= ranks[i].required_xp
    &&& forall|j: int|
        0 <= j < i && in_band(ranks[j], lo, hi) ==> ranks[j].required_xp < ranks[i].required_xp
}

/// The first of the highest thresholds in the band, if the band holds any.
pub open spec fn highest_in_band(ranks: Seq<Rank>, lo: Option<u64>, hi: u64, r: Option<Rank>) -> bool {
    match r {
        None => forall|j: int| 0 <= j < ranks.len() ==> !in_band(#[trigger] ranks[j], lo, hi),
        Some(x) => exists|i: int| is_highest_in_band(ranks, lo, hi, i) && ranks[i] == x,
    }
}

/// Index `i` holds the first of the lowest thresholds above `xp`.
pub open spec fn is_lowest_above(ranks: Seq<Rank>, xp: u64, i: int) -> bool {
    &&& 0 <= i < ranks.len()
    &&& xp < ranks[i].required_xp
    &&& forall|j: int|
        0 <= j < ranks.len() && xp < ranks[j].required_xp ==> ranks[i].required_xp
            <= ranks[j].required_xp
    &&& forall|j: int|
        0 <= j < i && xp < ranks[j].required_xp ==> ranks[i].required_xp < ranks[j].required_xp
}

/// The first of the lowest thresholds above `xp`, if any lies above it.
pub open spec fn lowest_above(ranks: Seq<Rank>, xp: u64, r: Option<Rank>) -> bool {
    match r {
        None => forall|j: int| 0 <= j < ranks.len() ==> (#[trigger] ranks[j]).required_xp <= xp,
        Some(x) => exists|i: int| is_lowest_above(ranks, xp, i) && ranks[i] == x,
    }
}

/// The first of the highest thresholds in the band `(lo, hi]` (or `[0, hi]`).
pub fn highest_within(ranks: &Vec<Rank>, lo: Option<u64>, hi: u64) -> (r: Option<Rank>)
    ensures
        highest_in_band(ranks@, lo, hi, r),
{
    let mut best: Option<usize> = None;
    let mut i: usize = 0;
    while i < ranks.len()
        invariant
            i <= ranks@.len(),
            match best {
                None => forall|j: int| 0 <= j < i ==> !in_band(#[trigger] ranks@[j], lo, hi),
                Some(b) => {
                    &&& b < i
                    &&& in_band(ranks@[b as int], lo, hi)
                    &&& forall|j: int|
                        0 <= j < i && in_band(ranks@[j], lo, hi) ==> ranks@[j].required_xp
                            <= ranks@[b as int].required_xp
                    &&& forall|j: int|
                        0 <= j < b && in_band(ranks@[j], lo, hi) ==> ranks@[j].required_xp
                            < ranks@[b as int].required_xp
                },
            },
        decreases ranks@.len() - i,
    {
        let r = ranks[i];
        let above_lo = match lo {
            Some(l) => l < r.required_xp,
            None => true,
        };
        if above_lo && r.required_xp <= hi {
            match best {
                None => {
                    best = Some(i);
                },
                Some(b) => {
                    if ranks[b].required_xp < r.required_xp {
                        best = Some(i);
                    }
                },
            }
        }
        i += 1;
    }
    match best {
        None => None,
        Some(b) => {
            assert(is_highest_in_band(ranks@, lo, hi, b as int));
            Some(ranks[b])
        },
    }
}

/// The first of the lowest thresholds that `xp` has not reached.
pub fn lowest_above_xp(ranks: &Vec<Rank>, xp: u64) -> (r: Option<Rank>)
    ensures
        lowest_above(ranks@, xp, r),
{
    let mut best: Option<usize> = None;
    let mut i: usize = 0;
    while i < ranks.len()
        invariant
            i <= ranks@.len(),
            match best {
                None => forall|j: int| 0 <= j < i ==> (#[trigger] ranks@[j]).required_xp <= xp,
                Some(b) => {
                    &&& b < i
                    &&& xp < ranks@[b as int].required_xp
                    &&& forall|j: int|
                        0 <= j < i && xp < ranks@[j].required_xp ==> ranks@[b as int].required_xp
                            <= ranks@[j].required_xp
                    &&& forall|j: int|
                        0 <= j < b && xp < ranks@[j].required_xp ==> ranks@[b as int].required_xp
                            < ranks@[j].required_xp
                },
            },
        decreases ranks@.len() - i,
    {
        let r = ranks[i];
        if xp < r.required_xp {
            match best {
                None => {
                    best = Some(i);
                },
                Some(b) => {
                    if r.required_xp < ranks[b].required_xp {
                        best = Some(i);
                    }
                },
            }
        }
        i += 1;
    }
    match best {
        None => None,
        Some(b) => {
            assert(is_lowest_above(ranks@, xp, b as int));
            Some(ranks[b])
        },
    }
}

/// The thresholds, in table order, that `xp` has reached.
pub open spec fn reached(ranks: Seq<Rank>, xp: u64) -> Seq<Rank>
    decreases ranks.len(),
{
    if ranks.len() == 0 {
        Seq::empty()
    } else if ranks.last().required_xp <= xp {
        reached(ranks.drop_last(), xp).push(ranks.last())
    } else {
        reached(ranks.drop_last(), xp)
    }
}

/// The thresholds, in table order, that `xp` has not reached yet.
pub open spec fn remaining(ranks: Seq<Rank>, xp: u64) -> Seq<Rank>
    decreases ranks.len(),
{
    if ranks.len() == 0 {
        Seq::empty()
    } else if xp < ranks.last().required_xp {
        remaining(ranks.drop_last(), xp).push(ranks.last())
    } else {
        remaining(ranks.drop_last(), xp)
    }
}

/// The thresholds that `xp` has reached, in table order.
pub fn achieved(ranks: &Vec<Rank>, xp: u64) -> (r: Vec<Rank>)
    ensures
        r@ == reached(ranks@, xp),
{
    let mut out: Vec<Rank> = Vec::new();
    let mut i: usize = 0;
    while i < ranks.len()
        invariant
            i <= ranks@.len(),
            out@ == reached(ranks@.subrange(0, i as int), xp),
        decreases ranks@.len() - i,
    {
        assert(ranks@.subrange(0, i + 1).drop_last() == ranks@.subrange(0, i as int));
        if ranks[i].required_xp <= xp {
            out.push(ranks[i]);
        }
        i += 1;
    }
    assert(ranks@.subrange(0, i as int) == ranks@);
    out
}

/// The thresholds that `xp` has not reached yet, in table order.
pub fn left(ranks: &Vec<Rank>, xp: u64) -> (r: Vec<Rank>)
    ensures
        r@ == remaining(ranks@, xp),
{
    let mut out: Vec<Rank> = Vec::new();
    let mut i: usize = 0;
    while i < ranks.len()
        invariant
            i <= ranks@.len(),
            out@ == remaining(ranks@.subrange(0, i as int), xp),
        decreases ranks@.len() - i,
    {
        assert(ranks@.subrange(0, i + 1).drop_last() == ranks@.subrange(0, i as int));
        if xp < ranks[i].required_xp {
            out.push(ranks[i]);
        }
        i += 1;
    }
    assert(ranks@.subrange(0, i as int) == ranks@);
    out
}

/// How many thresholds `xp` has reached: the tier ordinal, 0 for none.
pub fn count_reached(ranks: &Vec<Rank>, xp: u64) -> (n: usize)
    ensures
        n == reached(ranks@, xp).len(),
{
    let mut n: usize = 0;
    let mut i: usize = 0;
    proof {
        lemma_reached_len(ranks@, xp);
    }
    while i < ranks.len()
        invariant
            i <= ranks@.len(),
            n <= i,
            n == reached(ranks@.subrange(0, i as int), xp).len(),
        decreases ranks@.len() - i,
    {
        assert(ranks@.subrange(0, i + 1).drop_last() == ranks@.subrange(0, i as int));
        if ranks[i].required_xp <= xp {
            n += 1;
        }
        i += 1;
    }
    assert(ranks@.subrange(0, i as int) == ranks@);
    n
}

proof fn lemma_reached_len(ranks: Seq<Rank>, xp: u64)
    ensures
        reached(ranks, xp).len() <= ranks.len(),
    decreases ranks.len(),
{
    if ranks.len() > 0 {
        lemma_reached_len(ranks.drop_last(), xp);
    }
}

} // verus!
