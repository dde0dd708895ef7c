use xp_ranks::accrual::{
    record_activity, record_activity_now, transition, Accrual, XpState, XpUser, MAX_GRANT,
    MIN_GRANT,
};
use xp_ranks::leaderboard::{build, keep_resolved, sort_by_xp, LeaderboardEntry};
use xp_ranks::progress::{progress, report, ProgressView, QueryError};
use xp_ranks::rank::{achieved, count_reached, highest_within, left, lowest_above_xp, Rank};

fn two_tiers() -> Vec<Rank> {
    vec![
        Rank { role_id: 1, required_xp: 10_000 },
        Rank { role_id: 2, required_xp: 50_000 },
    ]
}

fn user(id: u64, xp: u64) -> XpUser {
    XpUser { user_id: id, meta: XpState { xp, last_activity: 0 } }
}

#[test]
fn first_activity_creates_zero_record() {
    let t0: i64 = 1_600_000_000_000;
    let r = record_activity(None, t0, 400, &two_tiers());
    assert_eq!(r, Accrual::Created(XpState { xp: 0, last_activity: t0 }));
    assert!(!r.is_granted());
}

#[test]
fn cooldown_then_grant_scenario() {
    let t0: i64 = 1_600_000_000_000;
    let ranks = two_tiers();
    let created = match record_activity(None, t0, 400, &ranks) {
        Accrual::Created(s) => s,
        other => panic!("expected a new record, got {:?}", other),
    };
    assert_eq!(created, XpState { xp: 0, last_activity: t0 });
    assert_eq!(record_activity(Some(created), t0 + 1_000, 400, &ranks), Accrual::Unchanged);
    match record_activity(Some(created), t0 + 6_000, 400, &ranks) {
        Accrual::Granted { state, transitioned } => {
            assert_eq!(state, XpState { xp: 400, last_activity: t0 + 6_000 });
            assert!(state.xp >= MIN_GRANT && state.xp < MAX_GRANT);
            assert_eq!(transitioned, None);
        }
        other => panic!("expected a grant, got {:?}", other),
    }
}

#[test]
fn exactly_five_seconds_is_still_cooldown() {
    let s = XpState { xp: 1_000, last_activity: 10_000 };
    assert_eq!(record_activity(Some(s), 15_000, 300, &two_tiers()), Accrual::Unchanged);
    assert!(record_activity(Some(s), 15_001, 300, &two_tiers()).is_granted());
}

#[test]
fn clock_going_back_grants_nothing() {
    let s = XpState { xp: 1_000, last_activity: 10_000 };
    assert_eq!(record_activity(Some(s), 0, 300, &two_tiers()), Accrual::Unchanged);
}

#[test]
fn extreme_timestamps_do_not_overflow() {
    let s = XpState { xp: 0, last_activity: i64::MIN };
    assert!(record_activity(Some(s), i64::MAX, 300, &vec![]).is_granted());
    let s = XpState { xp: 0, last_activity: i64::MAX };
    assert_eq!(record_activity(Some(s), i64::MIN, 300, &vec![]), Accrual::Unchanged);
}

#[test]
fn grant_reports_tier_crossed() {
    let ranks = two_tiers();
    assert_eq!(transition(&ranks, 9_000, 10_200), Some(ranks[0]));
    assert_eq!(transition(&ranks, 49_800, 50_100), Some(ranks[1]));
    assert_eq!(transition(&ranks, 10_000, 10_400), None);
    let s = XpState { xp: 9_800, last_activity: 0 };
    match record_activity(Some(s), 10_000, 400, &ranks) {
        Accrual::Granted { state, transitioned } => {
            assert_eq!(state.xp, 10_200);
            assert_eq!(transitioned, Some(ranks[0]));
        }
        other => panic!("expected a grant, got {:?}", other),
    }
    let s = XpState { xp: 49_800, last_activity: 0 };
    match record_activity(Some(s), 10_000, 300, &ranks) {
        Accrual::Granted { state, transitioned } => {
            assert_eq!(state.xp, 50_100);
            assert_eq!(transitioned, Some(ranks[1]));
        }
        other => panic!("expected a grant, got {:?}", other),
    }
}

#[test]
fn grant_crossing_two_reports_highest() {
    let ranks = vec![
        Rank { role_id: 1, required_xp: 10_000 },
        Rank { role_id: 2, required_xp: 10_100 },
    ];
    assert_eq!(transition(&ranks, 9_900, 10_200), Some(ranks[1]));
}

#[test]
fn random_grant_stays_in_range() {
    let s = XpState { xp: 2_000, last_activity: 0 };
    for _ in 0..50 {
        match record_activity_now(Some(s), &two_tiers()) {
            Accrual::Granted { state, .. } => {
                let delta = state.xp - s.xp;
                assert!(delta >= MIN_GRANT && delta < MAX_GRANT);
                // The clock is read: the stamp is after September 2020.
                assert!(state.last_activity > 1_600_000_000_000);
            }
            other => panic!("expected a grant, got {:?}", other),
        }
    }
}

#[test]
fn random_grants_vary() {
    let s = XpState { xp: 0, last_activity: 0 };
    let mut seen = Vec::new();
    for _ in 0..100 {
        if let Accrual::Granted { state, .. } = record_activity_now(Some(s), &vec![]) {
            if !seen.contains(&state.xp) {
                seen.push(state.xp);
            }
        }
    }
    assert!(seen.len() > 1);
}

#[test]
fn first_activity_now_creates_zero_record() {
    match record_activity_now(None, &two_tiers()) {
        Accrual::Created(s) => {
            assert_eq!(s.xp, 0);
            assert!(s.last_activity > 1_600_000_000_000);
        }
        other => panic!("expected a new record, got {:?}", other),
    }
}

#[test]
fn progress_between_tiers() {
    let ranks = two_tiers();
    let v = progress(&XpState { xp: 30_000, last_activity: 0 }, &ranks);
    assert_eq!(
        v,
        ProgressView {
            current_rank: Some(ranks[0]),
            next_rank: Some(ranks[1]),
            xp_to_next: Some(20_000),
            current_xp: 30_000,
        }
    );
}

#[test]
fn progress_below_first_tier_and_at_top() {
    let ranks = two_tiers();
    let low = progress(&XpState { xp: 9_999, last_activity: 0 }, &ranks);
    assert_eq!(low.current_rank, None);
    assert_eq!(low.next_rank, Some(ranks[0]));
    assert_eq!(low.xp_to_next, Some(1));
    let top = progress(&XpState { xp: 50_000, last_activity: 0 }, &ranks);
    assert_eq!(top.current_rank, Some(ranks[1]));
    assert_eq!(top.next_rank, None);
    assert_eq!(top.xp_to_next, None);
}

#[test]
fn report_twice_is_identical() {
    let ranks = two_tiers();
    let s = Some(XpState { xp: 12_345, last_activity: 7 });
    let a = report(s, &ranks);
    let b = report(s, &ranks);
    assert_eq!(a, b);
    assert_eq!(a.unwrap().xp_to_next, Some(37_655));
}

#[test]
fn report_unknown_user() {
    assert_eq!(report(None, &two_tiers()), Err(QueryError::UserNotFound));
}

#[test]
fn user_level_achieved_left() {
    let ranks = vec![
        Rank { role_id: 1, required_xp: 10_000 },
        Rank { role_id: 2, required_xp: 50_000 },
        Rank { role_id: 3, required_xp: 20_000 },
    ];
    let u = user(9, 25_000);
    assert_eq!(u.achieved(&ranks), vec![ranks[0], ranks[2]]);
    assert_eq!(u.left(&ranks), vec![ranks[1]]);
    assert_eq!(u.level(&ranks), Some(ranks[2]));
    assert_eq!(achieved(&ranks, 0), vec![]);
    assert_eq!(left(&ranks, 0), ranks);
    assert_eq!(count_reached(&ranks, 25_000), 2);
    assert_eq!(highest_within(&ranks, None, 5_000), None);
    assert_eq!(lowest_above_xp(&ranks, 10_000), Some(ranks[2]));
    assert_eq!(lowest_above_xp(&ranks, 50_000), None);
}

fn seven_users() -> Vec<XpUser> {
    vec![
        user(1, 500),
        user(2, 70_000),
        user(3, 12_000),
        user(4, 40_000),
        user(5, 9_000),
        user(6, 55_000),
        user(7, 100),
    ]
}

#[test]
fn leaderboard_top_three() {
    let ranks = two_tiers();
    let board = build(&seven_users(), &ranks, 3);
    assert_eq!(
        board,
        vec![
            LeaderboardEntry { position: 1, user: user(2, 70_000), rank_ordinal: 2 },
            LeaderboardEntry { position: 2, user: user(6, 55_000), rank_ordinal: 2 },
            LeaderboardEntry { position: 3, user: user(4, 40_000), rank_ordinal: 1 },
        ]
    );
}

#[test]
fn leaderboard_small_cap_defaults_to_five() {
    let ranks = two_tiers();
    let five = build(&seven_users(), &ranks, 5);
    assert_eq!(five.len(), 5);
    assert_eq!(build(&seven_users(), &ranks, 0), five);
    assert_eq!(build(&seven_users(), &ranks, -1), five);
    assert_eq!(build(&seven_users(), &ranks, i64::MIN), five);
    assert_eq!(build(&seven_users(), &ranks, i64::MAX).len(), 7);
    assert_eq!(build(&vec![], &ranks, 3), vec![]);
}

#[test]
fn leaderboard_ties_by_user_id() {
    let users = vec![user(9, 1_000), user(3, 1_000), user(5, 2_000), user(4, 1_000)];
    let sorted = sort_by_xp(&users);
    let ids: Vec<u64> = sorted.iter().map(|u| u.user_id).collect();
    assert_eq!(ids, vec![5, 3, 4, 9]);
}

#[test]
fn leaderboard_drops_unresolved_names() {
    let board = build(&seven_users(), &two_tiers(), 3);
    let kept = keep_resolved(&board, &vec![true, false, true]);
    assert_eq!(kept.len(), 2);
    assert_eq!(kept[0].position, 1);
    assert_eq!(kept[0].user.user_id, 2);
    assert_eq!(kept[1].position, 2);
    assert_eq!(kept[1].user.user_id, 4);
    assert_eq!(keep_resolved(&board, &vec![false, false, false]), vec![]);
}
