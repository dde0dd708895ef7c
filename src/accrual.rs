//! Granting experience for activity, under a cooldown, and spotting the
//! tier a grant has just reached.
use vstd::prelude::*;
use crate::rank::{Rank, highest_within, in_band, is_highest_in_band, highest_in_band};

verus! {

/// Milliseconds that must pass, strictly, after the last counted activity
/// before the next one earns experience.
pub const COOLDOWN_MS: i64 = 5000;

/// The smallest grant, in thousandths of a point.
pub const MIN_GRANT: u64 = 300;

/// The bound above every grant (excluded), in thousandths of a point.
pub const MAX_GRANT: u64 = 500;

/// What the store holds of one user.
#[derive(Clone, Copy, Debug, PartialEq, Eq, Structural)]
pub struct XpState {
    /// Experience, in thousandths of a point.
    pub xp: u64,
    /// The last counted activity, in milliseconds since the Unix epoch.
    pub last_activity: i64,
}

/// A user and their stored state.
#[derive(Clone, Copy, Debug, PartialEq, Eq, Structural)]
pub struct XpUser {
    pub user_id: u64,
    pub meta: XpState,
}

/// What an activity event comes to.
#[derive(Clone, Copy, Debug, PartialEq, Eq, Structural)]
pub enum Accrual {
    /// The user had no record: this one is to be stored. No experience is
    /// granted, so to the caller it reads as `Unchanged`.
    Created(XpState),
    /// Nothing is granted and nothing is written.
    Unchanged,
    /// This state is to be stored; `transitioned` is the tier just reached.
    Granted { state: XpState, transitioned: Option<Rank> },
}

impl Accrual {
    /// Whether the caller sees a grant.
    pub fn is_granted(&self) -> (r: bool)
        ensures
            r == (self is Granted),
    {
        match self {
            Accrual::Granted { .. } => true,
            _ => false,
        }
    }
}

/// The cooldown has run out: strictly more than `COOLDOWN_MS` have passed.
pub open spec fn cooled_down(last: i64, now: i64) -> bool {
    now - last > COOLDOWN_MS
}

/// A grant of `increment` can be added to `xp` without leaving `u64`.
pub open spec fn grant_fits(xp: u64, increment: u64) -> bool {
    xp + increment <= u64::MAX
}

/// The tier that a grant from `old_xp` to `new_xp` has just crossed: the
/// first of the highest thresholds in `(old_xp, new_xp]`.
pub fn transition(ranks: &Vec<Rank>, old_xp: u64, new_xp: u64) -> (r: Option<Rank>)
    ensures
        highest_in_band(ranks@, Some(old_xp), new_xp, r),
{
    highest_within(ranks, Some(old_xp), new_xp)
}

/// What an activity at `now` with a drawn `increment` comes to: no record
/// is created at zero; within the cooldown nothing changes; after it the
/// increment is added, the time stored, and the tier just crossed reported.
pub open spec fn accrual_of(
    existing: Option<XpState>,
    now: i64,
    increment: u64,
    ranks: Seq<Rank>,
    r: Accrual,
) -> bool {
    match existing {
        None => r == Accrual::Created(XpState { xp: 0, last_activity: now }),
        Some(s) => if cooled_down(s.last_activity, now) {
            &&& r matches Accrual::Granted { state, transitioned }
            &&& state == (XpState { xp: (s.xp + increment) as u64, last_activity: now })
            &&& highest_in_band(ranks, Some(s.xp), state.xp, transitioned)
        } else {
            r == Accrual::Unchanged
        },
    }
}

/// Decides what an activity of a user at `now` comes to, given the user's
/// stored state (if any) and a drawn increment.
pub fn record_activity(existing: Option<XpState>, now: i64, increment: u64, ranks: &Vec<Rank>) -> (r: Accrual)
    requires
        MIN_GRANT <= increment < MAX_GRANT,
        existing matches Some(s) ==> grant_fits(s.xp, increment),
    ensures
        accrual_of(existing, now, increment, ranks@, r),
{
    match existing {
        None => Accrual::Created(XpState { xp: 0, last_activity: now }),
        Some(s) => {
            let elapsed: i128 = (now as i128) - (s.last_activity as i128);
            if elapsed > COOLDOWN_MS as i128 {
                let new_xp: u64 = s.xp + increment;
                let transitioned = transition(ranks, s.xp, new_xp);
                Accrual::Granted {
                    state: XpState { xp: new_xp, last_activity: now },
                    transitioned,
                }
            } else {
                Accrual::Unchanged
            }
        },
    }
}

/// Relies on rand's `thread_rng().gen_range(low, high)`, which draws an
/// integer uniformly from `[low, high)` and panics unless `low < high`.
#[verifier::external_body]
fn draw_between(low: u64, high: u64) -> (r: u64)
    requires
        low < high,
    ensures
        low <= r < high,
{
    rand::Rng::gen_range(&mut rand::thread_rng(), low, high)
}

/// Relies on chrono's `Utc::now().timestamp_millis()`: the current time in
/// milliseconds since the Unix epoch.
#[verifier::external_body]
fn now_millis() -> (r: i64) {
    chrono::Utc::now().timestamp_millis()
}

/// An activity happening now: draws the increment from
/// `[MIN_GRANT, MAX_GRANT)` and reads the clock, then decides as
/// `record_activity` does.
pub fn record_activity_now(existing: Option<XpState>, ranks: &Vec<Rank>) -> (r: Accrual)
    requires
        existing matches Some(s) ==> s.xp <= u64::MAX - MAX_GRANT,
    ensures
        exists|now: i64, increment: u64|
            MIN_GRANT <= increment < MAX_GRANT && accrual_of(existing, now, increment, ranks@, r),
{
    let increment = draw_between(MIN_GRANT, MAX_GRANT);
    let now = now_millis();
    record_activity(existing, now, increment, ranks)
}

/// A user's first activity creates a record at zero experience, stamped
/// with the activity's time, and grants nothing.
pub proof fn first_activity_grants_nothing(now: i64, increment: u64, ranks: Seq<Rank>, r: Accrual)
    requires
        accrual_of(None, now, increment, ranks, r),
    ensures
        r == Accrual::Created(XpState { xp: 0, last_activity: now }),
        !(r is Granted),
{
}

/// An activity no more than `COOLDOWN_MS` after the stored one leaves the
/// record as it is.
pub proof fn within_cooldown_unchanged(
    s: XpState,
    now: i64,
    increment: u64,
    ranks: Seq<Rank>,
    r: Accrual,
)
    requires
        accrual_of(Some(s), now, increment, ranks, r),
        now - s.last_activity <= COOLDOWN_MS,
    ensures
        r == Accrual::Unchanged,
{
}

/// An activity more than `COOLDOWN_MS` after the stored one is granted, and
/// the experience grows by at least `MIN_GRANT` and less than `MAX_GRANT`.
pub proof fn after_cooldown_grant_in_range(
    s: XpState,
    now: i64,
    increment: u64,
    ranks: Seq<Rank>,
    r: Accrual,
)
    requires
        MIN_GRANT <= increment < MAX_GRANT,
        grant_fits(s.xp, increment),
        accrual_of(Some(s), now, increment, ranks, r),
        now - s.last_activity > COOLDOWN_MS,
    ensures
        r matches Accrual::Granted { state, .. } && MIN_GRANT <= state.xp - s.xp < MAX_GRANT,
{
}

/// A tier is reported exactly when the grant crosses some threshold that
/// the old experience had not reached; where it crosses exactly one, that
/// one is reported.
pub proof fn transition_iff_crossed(ranks: Seq<Rank>, old_xp: u64, new_xp: u64, t: Option<Rank>)
    requires
        highest_in_band(ranks, Some(old_xp), new_xp, t),
    ensures
        t is Some <==> exists|j: int|
            0 <= j < ranks.len() && old_xp < (#[trigger] ranks[j]).required_xp <= new_xp,
        forall|k: int|
            0 <= k < ranks.len() && old_xp < ranks[k].required_xp <= new_xp && (forall|j: int|
                0 <= j < ranks.len() && old_xp < (#[trigger] ranks[j]).required_xp <= new_xp
                    ==> j == k) ==> t == Some(ranks[k]),
{
    if let Some(x) = t {
        let i = choose|i: int| is_highest_in_band(ranks, Some(old_xp), new_xp, i) && ranks[i] == x;
        assert(in_band(ranks[i], Some(old_xp), new_xp));
    } else {
        assert forall|j: int| 0 <= j < ranks.len() implies !(old_xp < (#[trigger] ranks[j]).required_xp
            <= new_xp) by {
            assert(!in_band(ranks[j], Some(old_xp), new_xp));
        }
    }
}

} // verus!
