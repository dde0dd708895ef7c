//! A user's standing: the tier held, the next one, and how far off it is.
use vstd::prelude::*;
use crate::rank::{
    Rank, achieved, left, highest_within, lowest_above_xp, highest_in_band, is_highest_in_band,
    lowest_above, is_lowest_above, reached, remaining,
};
use crate::accrual::{XpState, XpUser};

verus! {

/// A user's standing against the rank table.
#[derive(Clone, Copy, Debug, PartialEq, Eq, Structural)]
pub struct ProgressView {
    /// The highest tier reached, if any.
    pub current_rank: Option<Rank>,
    /// The lowest tier not reached yet; none at the top.
    pub next_rank: Option<Rank>,
    /// Experience still needed for `next_rank`.
    pub xp_to_next: Option<u64>,
    pub current_xp: u64,
}

/// Why a query has no answer.
#[derive(Clone, Copy, Debug, PartialEq, Eq, Structural)]
pub enum QueryError {
    /// No record is stored for the user.
    UserNotFound,
}

/// `v` is the standing of `xp` against `ranks`.
pub open spec fn progress_of(ranks: Seq<Rank>, xp: u64, v: ProgressView) -> bool {
    &&& highest_in_band(ranks, None, xp, v.current_rank)
    &&& lowest_above(ranks, xp, v.next_rank)
    &&& v.xp_to_next == match v.next_rank {
        Some(n) => Some((n.required_xp - xp) as u64),
        None => None::<u64>,
    }
    &&& v.current_xp == xp
}

impl XpUser {
    /// The thresholds this user has reached, in table order.
    pub fn achieved(&self, ranks: &Vec<Rank>) -> (r: Vec<Rank>)
        ensures
            r@ == reached(ranks@, self.meta.xp),
    {
        achieved(ranks, self.meta.xp)
    }

    /// The thresholds this user has not reached yet, in table order.
    pub fn left(&self, ranks: &Vec<Rank>) -> (r: Vec<Rank>)
        ensures
            r@ == remaining(ranks@, self.meta.xp),
    {
        left(ranks, self.meta.xp)
    }

    /// The highest tier this user has reached, if any.
    pub fn level(&self, ranks: &Vec<Rank>) -> (r: Option<Rank>)
        ensures
            highest_in_band(ranks@, None, self.meta.xp, r),
    {
        highest_within(ranks, None, self.meta.xp)
    }
}

/// The standing of a stored state against the rank table.
pub fn progress(state: &XpState, ranks: &Vec<Rank>) -> (v: ProgressView)
    ensures
        progress_of(ranks@, state.xp, v),
{
    let current_rank = highest_within(ranks, None, state.xp);
    let next_rank = lowest_above_xp(ranks, state.xp);
    let xp_to_next = match next_rank {
        Some(n) => {
            proof {
                let i = choose|i: int| is_lowest_above(ranks@, state.xp, i) && ranks@[i] == n;
            }
            Some(n.required_xp - state.xp)
        },
        None => None,
    };
    ProgressView { current_rank, next_rank, xp_to_next, current_xp: state.xp }
}

/// The progress report for a user, given what the store returned for them.
pub fn report(record: Option<XpState>, ranks: &Vec<Rank>) -> (r: Result<ProgressView, QueryError>)
    ensures
        match record {
            None => r == Err::<ProgressView, QueryError>(QueryError::UserNotFound),
            Some(s) => r matches Ok(v) && progress_of(ranks@, s.xp, v),
        },
{
    match record {
        None => Err(QueryError::UserNotFound),
        Some(s) => Ok(progress(&s, ranks)),
    }
}

/// A report depends on nothing but the stored state and the table: two
/// reports on the same record, with no activity between them, are equal.
pub proof fn report_is_idempotent(
    record: Option<XpState>,
    ranks: Seq<Rank>,
    a: Result<ProgressView, QueryError>,
    b: Result<ProgressView, QueryError>,
)
    requires
        match record {
            None => a == Err::<ProgressView, QueryError>(QueryError::UserNotFound),
            Some(s) => a matches Ok(v) && progress_of(ranks, s.xp, v),
        },
        match record {
            None => b == Err::<ProgressView, QueryError>(QueryError::UserNotFound),
            Some(s) => b matches Ok(v) && progress_of(ranks, s.xp, v),
        },
    ensures
        a == b,
{
    if let Some(s) = record {
        let va = a->Ok_0;
        let vb = b->Ok_0;
        lemma_highest_unique(ranks, None, s.xp, va.current_rank, vb.current_rank);
        lemma_lowest_unique(ranks, s.xp, va.next_rank, vb.next_rank);
    }
}

/// The highest threshold in a band is a single one.
proof fn lemma_highest_unique(ranks: Seq<Rank>, lo: Option<u64>, hi: u64, a: Option<Rank>, b: Option<Rank>)
    requires
        highest_in_band(ranks, lo, hi, a),
        highest_in_band(ranks, lo, hi, b),
    ensures
        a == b,
{
    if let Some(x) = a {
        let i = choose|i: int| is_highest_in_band(ranks, lo, hi, i) && ranks[i] == x;
        if let Some(y) = b {
            let k = choose|k: int| is_highest_in_band(ranks, lo, hi, k) && ranks[k] == y;
            assert(i == k);
        } else {
            assert(!crate::rank::in_band(ranks[i], lo, hi));
        }
    } else if let Some(y) = b {
        let k = choose|k: int| is_highest_in_band(ranks, lo, hi, k) && ranks[k] == y;
        assert(!crate::rank::in_band(ranks[k], lo, hi));
    }
}

/// The lowest threshold above an amount is a single one.
proof fn lemma_lowest_unique(ranks: Seq<Rank>, xp: u64, a: Option<Rank>, b: Option<Rank>)
    requires
        lowest_above(ranks, xp, a),
        lowest_above(ranks, xp, b),
    ensures
        a == b,
{
    if let Some(x) = a {
        let i = choose|i: int| is_lowest_above(ranks, xp, i) && ranks[i] == x;
        if let Some(y) = b {
            let k = choose|k: int| is_lowest_above(ranks, xp, k) && ranks[k] == y;
            assert(i == k);
        } else {
            assert(ranks[i].required_xp <= xp);
        }
    } else if let Some(y) = b {
        let k = choose|k: int| is_lowest_above(ranks, xp, k) && ranks[k] == y;
        assert(ranks[k].required_xp <= xp);
    }
}

} // verus!
