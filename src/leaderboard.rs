//! The leaderboard: users by descending experience, ties by ascending user
//! id, capped, each with its display position and tier ordinal.
use vstd::prelude::*;
use crate::rank::{Rank, count_reached, reached};
use crate::accrual::XpUser;

verus! {

/// The cap used when the one asked for is below 1.
pub const DEFAULT_CAP: u64 = 5;

/// One line of the leaderboard.
#[derive(Clone, Copy, Debug, PartialEq, Eq, Structural)]
pub struct LeaderboardEntry {
    /// 1-based place on the board.
    pub position: usize,
    pub user: XpUser,
    /// How many thresholds the user has reached.
    pub rank_ordinal: usize,
}

/// `a` stands strictly above `b`: more experience, or as much and a smaller id.
pub open spec fn precedes(a: XpUser, b: XpUser) -> bool {
    a.meta.xp > b.meta.xp || (a.meta.xp == b.meta.xp && a.user_id < b.user_id)
}

/// Where `x` goes into `s`, looking from index `j` on: before the first
/// element it precedes.
pub open spec fn insert_pos_from(s: Seq<XpUser>, x: XpUser, j: int) -> int
    decreases s.len() - j,
{
    if j < 0 || j >= s.len() {
        s.len() as int
    } else if precedes(x, s[j]) {
        j
    } else {
        insert_pos_from(s, x, j + 1)
    }
}

/// `s` in board order, by insertion.
pub open spec fn board_order(s: Seq<XpUser>) -> Seq<XpUser>
    decreases s.len(),
{
    if s.len() == 0 {
        Seq::empty()
    } else {
        let rest = board_order(s.drop_last());
        rest.insert(insert_pos_from(rest, s.last(), 0), s.last())
    }
}

/// No element of `s` precedes one before it.
pub open spec fn in_board_order(s: Seq<XpUser>) -> bool {
    forall|i: int, j: int| 0 <= i < j < s.len() ==> !precedes(s[j], s[i])
}

/// How many lines a board with the requested cap holds at most.
pub open spec fn effective_cap(cap: i64) -> nat {
    if cap < 1 {
        DEFAULT_CAP as nat
    } else {
        cap as nat
    }
}

/// The leaderboard of `records` against `ranks` with the requested cap.
pub open spec fn board_of(records: Seq<XpUser>, ranks: Seq<Rank>, cap: i64) -> Seq<LeaderboardEntry> {
    let sorted = board_order(records);
    let k = if effective_cap(cap) < sorted.len() {
        effective_cap(cap)
    } else {
        sorted.len()
    };
    Seq::new(
        k,
        |i: int|
            LeaderboardEntry {
                position: (i + 1) as usize,
                user: sorted[i],
                rank_ordinal: reached(ranks, sorted[i].meta.xp).len() as usize,
            },
    )
}

fn precedes_exec(a: &XpUser, b: &XpUser) -> (r: bool)
    ensures
        r == precedes(*a, *b),
{
    a.meta.xp > b.meta.xp || (a.meta.xp == b.meta.xp && a.user_id < b.user_id)
}

proof fn lemma_board_order_len(s: Seq<XpUser>)
    ensures
        board_order(s).len() == s.len(),
    decreases s.len(),
{
    if s.len() > 0 {
        lemma_board_order_len(s.drop_last());
        lemma_insert_pos_bounds(board_order(s.drop_last()), s.last(), 0);
    }
}

proof fn lemma_insert_pos_bounds(s: Seq<XpUser>, x: XpUser, j: int)
    requires
        0 <= j <= s.len(),
    ensures
        j <= insert_pos_from(s, x, j) <= s.len(),
        forall|k: int| j <= k < insert_pos_from(s, x, j) ==> !precedes(x, #[trigger] s[k]),
        insert_pos_from(s, x, j) < s.len() ==> precedes(x, s[insert_pos_from(s, x, j)]),
    decreases s.len() - j,
{
    if j < s.len() && !precedes(x, s[j]) {
        lemma_insert_pos_bounds(s, x, j + 1);
    }
}

/// The entries whose display name was found (`found[i]` for entry `i`),
/// in order, numbered again from 1.
pub open spec fn resolved_entries(entries: Seq<LeaderboardEntry>, found: Seq<bool>) -> Seq<LeaderboardEntry>
    decreases entries.len(),
{
    if entries.len() == 0 {
        Seq::empty()
    } else {
        let rest = resolved_entries(entries.drop_last(), found);
        if found[entries.len() - 1] {
            rest.push(LeaderboardEntry { position: (rest.len() + 1) as usize, ..entries.last() })
        } else {
            rest
        }
    }
}

proof fn lemma_resolved_len(entries: Seq<LeaderboardEntry>, found: Seq<bool>)
    ensures
        resolved_entries(entries, found).len() <= entries.len(),
    decreases entries.len(),
{
    if entries.len() > 0 {
        lemma_resolved_len(entries.drop_last(), found);
    }
}

/// Drops the entries whose user's display name could not be looked up and
/// numbers the rest 1, 2, ... in order.
pub fn keep_resolved(entries: &Vec<LeaderboardEntry>, found: &Vec<bool>) -> (r: Vec<LeaderboardEntry>)
    requires
        found@.len() == entries@.len(),
    ensures
        r@ == resolved_entries(entries@, found@),
{
    let mut out: Vec<LeaderboardEntry> = Vec::new();
    let mut i: usize = 0;
    while i < entries.len()
        invariant
            i <= entries@.len(),
            found@.len() == entries@.len(),
            out@.len() <= i,
            out@ == resolved_entries(entries@.subrange(0, i as int), found@),
        decreases entries@.len() - i,
    {
        proof {
            lemma_resolved_len(entries@.subrange(0, i as int), found@);
        }
        assert(entries@.subrange(0, i + 1).drop_last() == entries@.subrange(0, i as int));
        if found[i] {
            let e = entries[i];
            out.push(LeaderboardEntry { position: out.len() + 1, ..e });
        }
        i += 1;
    }
    assert(entries@.subrange(0, i as int) == entries@);
    out
}

/// The users in board order.
pub fn sort_by_xp(records: &Vec<XpUser>) -> (r: Vec<XpUser>)
    ensures
        r@ == board_order(records@),
{
    let mut out: Vec<XpUser> = Vec::new();
    let mut i: usize = 0;
    while i < records.len()
        invariant
            i <= records@.len(),
            out@ == board_order(records@.subrange(0, i as int)),
        decreases records@.len() - i,
    {
        proof {
            lemma_board_order_len(records@.subrange(0, i as int));
        }
        let x = records[i];
        let mut j: usize = 0;
        while j < out.len() && !precedes_exec(&x, &out[j])
            invariant
                j <= out@.len(),
                insert_pos_from(out@, x, 0) == insert_pos_from(out@, x, j as int),
            decreases out@.len() - j,
        {
            j += 1;
        }
        assert(records@.subrange(0, i + 1).drop_last() == records@.subrange(0, i as int));
        assert(records@.subrange(0, i + 1).last() == x);
        out.insert(j, x);
        i += 1;
    }
    assert(records@.subrange(0, i as int) == records@);
    out
}

/// The leaderboard: the first `cap` users in board order (5 when `cap` is
/// below 1), numbered from 1, each with the count of thresholds reached.
pub fn build(records: &Vec<XpUser>, ranks: &Vec<Rank>, cap: i64) -> (r: Vec<LeaderboardEntry>)
    ensures
        r@ == board_of(records@, ranks@, cap),
{
    let sorted = sort_by_xp(records);
    proof {
        lemma_board_order_len(records@);
    }
    let k: usize = if cap < 1 {
        if DEFAULT_CAP < sorted.len() as u64 {
            DEFAULT_CAP as usize
        } else {
            sorted.len()
        }
    } else if (cap as u64) < sorted.len() as u64 {
        cap as usize
    } else {
        sorted.len()
    };
    let mut out: Vec<LeaderboardEntry> = Vec::new();
    let mut i: usize = 0;
    while i < k
        invariant
            k <= sorted@.len(),
            k == board_of(records@, ranks@, cap).len(),
            sorted@ == board_order(records@),
            i <= k,
            out@ == board_of(records@, ranks@, cap).subrange(0, i as int),
        decreases k - i,
    {
        let u = sorted[i];
        let ordinal = count_reached(ranks, u.meta.xp);
        out.push(LeaderboardEntry { position: i + 1, user: u, rank_ordinal: ordinal });
        i += 1;
        assert(out@ =~= board_of(records@, ranks@, cap).subrange(0, i as int));
    }
    assert(out@ =~= board_of(records@, ranks@, cap));
    out
}

proof fn lemma_insert_keeps_order(s: Seq<XpUser>, x: XpUser)
    requires
        in_board_order(s),
    ensures
        in_board_order(s.insert(insert_pos_from(s, x, 0), x)),
{
    let p = insert_pos_from(s, x, 0);
    lemma_insert_pos_bounds(s, x, 0);
    let t = s.insert(p, x);
    assert forall|i: int, j: int| 0 <= i < j < t.len() implies !precedes(t[j], t[i]) by {
        if j < p {
            assert(t[i] == s[i] && t[j] == s[j]);
        } else if j == p {
            assert(t[i] == s[i]);
        } else if i == p {
            assert(t[j] == s[j - 1]);
            assert(!precedes(s[j - 1], s[p]));
        } else if i < p {
            assert(t[i] == s[i] && t[j] == s[j - 1]);
        } else {
            assert(t[i] == s[i - 1] && t[j] == s[j - 1]);
        }
    }
}

/// Board order sorts: no user precedes one listed before it, and the
/// users are those given, each as often as given.
pub proof fn board_order_sorts(s: Seq<XpUser>)
    ensures
        in_board_order(board_order(s)),
        board_order(s).to_multiset() == s.to_multiset(),
    decreases s.len(),
{
    if s.len() > 0 {
        let rest = board_order(s.drop_last());
        board_order_sorts(s.drop_last());
        lemma_board_order_len(s.drop_last());
        lemma_insert_pos_bounds(rest, s.last(), 0);
        lemma_insert_keeps_order(rest, s.last());
        vstd::seq_lib::to_multiset_insert(rest, insert_pos_from(rest, s.last(), 0), s.last());
        s.drop_last().to_multiset_ensures();
        assert(s.drop_last().push(s.last()) == s);
        assert(board_order(s) == rest.insert(insert_pos_from(rest, s.last(), 0), s.last()));
        assert(s.to_multiset() == s.drop_last().to_multiset().insert(s.last()));
    } else {
        assert(board_order(s) =~= s);
    }
}

/// `precedes` is a strict total order on (experience, user id): of two
/// users with different keys exactly one stands above the other.
pub proof fn precedes_is_total(a: XpUser, b: XpUser)
    ensures
        !(precedes(a, b) && precedes(b, a)),
        (a.meta.xp != b.meta.xp || a.user_id != b.user_id) ==> (precedes(a, b) || precedes(b, a)),
{
}

/// The leaderboard lists users by descending experience (ties by id),
/// numbered 1, 2, ... from the top, holds the first `min(cap, n)` users of
/// that order, and a cap below 1 acts as a cap of 5.
pub proof fn leaderboard_is_ordered(records: Seq<XpUser>, ranks: Seq<Rank>, cap: i64)
    requires
        records.len() <= usize::MAX,
    ensures
        forall|i: int, j: int|
            0 <= i < j < board_of(records, ranks, cap).len() ==> !precedes(
                board_of(records, ranks, cap)[j].user,
                board_of(records, ranks, cap)[i].user,
            ) && board_of(records, ranks, cap)[j].user.meta.xp <= board_of(
                records,
                ranks,
                cap,
            )[i].user.meta.xp,
        forall|i: int|
            0 <= i < board_of(records, ranks, cap).len() ==> board_of(records, ranks, cap)[i].position
                == i + 1 && board_of(records, ranks, cap)[i].user == board_order(records)[i],
        board_of(records, ranks, cap).len() == if effective_cap(cap) < records.len() {
            effective_cap(cap)
        } else {
            records.len() as nat
        },
        board_of(records, ranks, 0) == board_of(records, ranks, 5),
        board_of(records, ranks, -1i64) == board_of(records, ranks, 5),
{
    board_order_sorts(records);
    lemma_board_order_len(records);
    let b = board_of(records, ranks, cap);
    let sorted = board_order(records);
    assert forall|i: int| 0 <= i < b.len() implies b[i].position == i + 1 && b[i].user
        == sorted[i] by {}
    assert forall|i: int, j: int| 0 <= i < j < b.len() implies !precedes(b[j].user, b[i].user)
        && b[j].user.meta.xp <= b[i].user.meta.xp by {
        assert(b[i].user == sorted[i] && b[j].user == sorted[j]);
        assert(j < sorted.len());
        assert(!precedes(sorted[j], sorted[i]));
    }
    assert(board_of(records, ranks, 0) =~= board_of(records, ranks, 5));
    assert(board_of(records, ranks, -1i64) =~= board_of(records, ranks, 5));
}

} // verus!
