use xp_ranks::config::{parse_digits, parse_rank_line, parse_rank_table, parse_xp};
use xp_ranks::rank::Rank;

#[test]
fn table_skips_header_and_bad_lines() {
    let text = b"506219319030448128\n1 10\n2 50.5\nbad line\n\n3\n4 1.2345\n5 0.125 extra\n  6\t7.25  ";
    assert_eq!(
        parse_rank_table(text),
        vec![
            Rank { role_id: 1, required_xp: 10_000 },
            Rank { role_id: 2, required_xp: 50_500 },
            Rank { role_id: 5, required_xp: 125 },
            Rank { role_id: 6, required_xp: 7_250 },
        ]
    );
}

#[test]
fn table_of_header_only_is_empty() {
    assert_eq!(parse_rank_table(b"1 10"), vec![]);
    assert_eq!(parse_rank_table(b""), vec![]);
    assert_eq!(parse_rank_table(b"42\n"), vec![]);
}

#[test]
fn rank_line_forms() {
    assert_eq!(parse_rank_line(b"12 3"), Some(Rank { role_id: 12, required_xp: 3_000 }));
    assert_eq!(parse_rank_line(b"12 3.5"), Some(Rank { role_id: 12, required_xp: 3_500 }));
    assert_eq!(parse_rank_line(b"12 3.05"), Some(Rank { role_id: 12, required_xp: 3_050 }));
    assert_eq!(parse_rank_line(b"12"), None);
    assert_eq!(parse_rank_line(b""), None);
    assert_eq!(parse_rank_line(b"x 3"), None);
    assert_eq!(parse_rank_line(b"12 .5"), None);
    assert_eq!(parse_rank_line(b"12 5."), None);
    assert_eq!(parse_rank_line(b"12 -5"), None);
}

#[test]
fn digits_at_the_u64_limit() {
    let max = b"18446744073709551615";
    assert_eq!(parse_digits(max, 0, max.len()), Some(u64::MAX));
    let over = b"18446744073709551616";
    assert_eq!(parse_digits(over, 0, over.len()), None);
    assert_eq!(parse_digits(b"", 0, 0), None);
    assert_eq!(parse_digits(b"a12b", 1, 3), Some(12));
}

#[test]
fn xp_amounts_in_thousandths() {
    assert_eq!(parse_xp(b"0.3", 0, 3), Some(300));
    assert_eq!(parse_xp(b"10.125", 0, 6), Some(10_125));
    let big = b"18446744073709551.615";
    assert_eq!(parse_xp(big, 0, big.len()), Some(u64::MAX));
    let over = b"18446744073709552";
    assert_eq!(parse_xp(over, 0, over.len()), None);
}
