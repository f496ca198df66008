use riichi::agari::{check_ankan_after_riichi, HandEvalContext, HandScore};
use riichi::tile::TileType;
use riichi::point::Payout;

/// Counts from a hand written as digits and suit letters ("123m 55z").
fn make_counts(s: &str) -> [u8; 34] {
    let mut ret = [0u8; 34];
    let mut digits: Vec<usize> = Vec::new();
    for b in s.as_bytes() {
        match b {
            b'0'..=b'9' => digits.push((b - b'0') as usize),
            b'm' | b'p' | b's' | b'z' => {
                let kind = match b {
                    b'm' => 0,
                    b'p' => 1,
                    b's' => 2,
                    _ => 3,
                };
                for &t in &digits {
                    let idx = if t == 0 { kind * 9 + 4 } else { kind * 9 + t - 1 };
                    if idx < 34 {
                        ret[idx] += 1;
                    }
                }
                digits.clear();
            }
            b' ' | b'\t' | b'\n' => {}
            _ => panic!("unexpected byte: {b}"),
        }
    }
    ret
}

const E: u8 = 27;
const S: u8 = 28;
const N: u8 = 30;

fn concealed<'a>(hand: &'a [u8; 34], table: u8, seat: u8, winning: u8, is_ron: bool) -> HandEvalContext<'a> {
    HandEvalContext {
        hand,
        is_concealed: true,
        chis: &[],
        pons: &[],
        minkans: &[],
        ankans: &[],
        table_wind: table,
        seat_wind: seat,
        winning_tile: winning,
        is_ron,
    }
}

#[test]
fn test_tanyao_hand() {
    let counts = make_counts("223344m 667788s 33m");
    let ctx = concealed(&counts, S, N, 2, false);
    let score = ctx.search_yaku().unwrap();
    assert_eq!(score, HandScore::Basic { fu: 30, han: 4 });
}

#[test]
fn test_no_yaku() {
    let counts = make_counts("234678m 1123488p 8p");
    let ctx = concealed(&counts, E, E, 16, true);
    assert_eq!(ctx.search_yaku(), None);
}

#[test]
fn test_yakuman_kokushi() {
    let counts = make_counts("19m 19p 19s 1234567z 1m");
    let ctx = concealed(&counts, E, E, 0, true);
    assert_eq!(ctx.search_yaku(), Some(HandScore::Yakuman(1)));
}

#[test]
fn test_has_yaku() {
    let counts = make_counts("223344m 667788s 33m");
    let ctx = concealed(&counts, S, N, 2, false);
    assert!(ctx.has_yaku());
}

#[test]
fn no_yaku_hand_has_no_yaku() {
    let counts = make_counts("234678m 1123488p 8p");
    let ctx = concealed(&counts, E, E, 16, true);
    assert!(!ctx.has_yaku());
}

#[test]
fn incomplete_hand_scores_nothing() {
    let counts = make_counts("123m 456p 789s 11z 2z");
    let ctx = concealed(&counts, E, E, 28, false);
    assert_eq!(ctx.search_yaku(), None);
    assert!(!ctx.has_yaku());
}

#[test]
fn pinfu_tsumo_is_twenty_fu() {
    // 234m 567m 234p 678s 99s, won on 4m (two-sided from 23m): pinfu, tsumo.
    let counts = make_counts("234567m 234p 678s 99s");
    let ctx = concealed(&counts, E, S, 3, false);
    assert_eq!(ctx.search_yaku(), Some(HandScore::Basic { fu: 20, han: 1 }));
}

#[test]
fn pinfu_ron_is_thirty_fu() {
    let counts = make_counts("234567m 234p 678s 99s");
    let ctx = concealed(&counts, E, S, 3, true);
    assert_eq!(ctx.search_yaku(), Some(HandScore::Basic { fu: 30, han: 1 }));
}

#[test]
fn seven_pairs_is_twenty_five_fu() {
    // 11m 33m 55p 77p 22s 44s 66z: chiitoitsu only.
    let counts = make_counts("1133m 5577p 2244s 66z");
    let ctx = concealed(&counts, E, S, 0, true);
    assert_eq!(ctx.search_yaku(), Some(HandScore::Basic { fu: 25, han: 2 }));
}

#[test]
fn open_white_dragon_pon_scores_yakuhai() {
    // Pon of white dragon (31); concealed 234m 567p 789s 55s, ron on 5s.
    let counts = make_counts("234m 567p 789s 55s");
    let pons = [31u8];
    let ctx = HandEvalContext {
        hand: &counts,
        is_concealed: false,
        chis: &[],
        pons: &pons,
        minkans: &[],
        ankans: &[],
        table_wind: E,
        seat_wind: S,
        winning_tile: 22,
        is_ron: true,
    };
    // 20 + 4 (honour pon) + 2 (pair wait) = 26, rounded to 30.
    assert_eq!(ctx.search_yaku(), Some(HandScore::Basic { fu: 30, han: 1 }));
}

#[test]
fn all_honours_is_yakuman() {
    let counts = make_counts("111222333444z 55z");
    let ctx = concealed(&counts, E, S, 31, false);
    // tsuuiisou, suuankou (tsumo), daisuushii
    assert_eq!(ctx.search_yaku(), Some(HandScore::Yakuman(3)));
}

#[test]
fn evaluate_full_adds_outside_han_and_dora() {
    let counts = make_counts("223344m 667788s 33m");
    let ctx = concealed(&counts, S, N, 2, false);
    assert_eq!(ctx.evaluate_full(1, 2), Some(HandScore::Basic { fu: 30, han: 7 }));
}

#[test]
fn evaluate_full_without_yaku_needs_outside_han() {
    let counts = make_counts("234678m 1123488p 8p");
    let ctx = concealed(&counts, E, E, 16, true);
    assert_eq!(ctx.evaluate_full(0, 3), None);
    // Riichi alone: 1 han with the fu of the best reading (20 + 10 + open 8p pon 4... )
    assert_eq!(ctx.evaluate_full(1, 0), Some(HandScore::Basic { fu: 40, han: 1 }));
    assert_eq!(ctx.evaluate_full(2, 3), Some(HandScore::Basic { fu: 0, han: 5 }));
}

#[test]
fn yakuman_outranks_any_regular_score() {
    let y = HandScore::Yakuman(1);
    let b = HandScore::Basic { fu: 110, han: 12 };
    assert!(y.outranks(&b));
    assert!(!b.outranks(&y));
    assert!(HandScore::Yakuman(2).outranks(&y));
    assert!(HandScore::Basic { fu: 30, han: 3 }.outranks(&HandScore::Basic { fu: 40, han: 2 }));
    assert!(HandScore::Basic { fu: 40, han: 2 }.outranks(&HandScore::Basic { fu: 30, han: 2 }));
    assert!(!b.outranks(&b));
}

#[test]
fn hand_score_payout_uses_the_tables() {
    assert_eq!(
        HandScore::Basic { fu: 30, han: 4 }.payout(false),
        Payout { ron: 7700, tsumo_non_dealer: 2000, tsumo_dealer: 3900 }
    );
    assert_eq!(
        HandScore::Yakuman(2).payout(true),
        Payout { ron: 96000, tsumo_non_dealer: 32000, tsumo_dealer: 0 }
    );
}

#[test]
fn ankan_after_riichi_keeping_the_only_wait_is_allowed() {
    let tiles = make_counts("1111m 234p 567s 789s 5z");
    assert!(check_ankan_after_riichi(&tiles, 4, TileType(0), true));
    assert!(check_ankan_after_riichi(&tiles, 4, TileType(0), false));
}

#[test]
fn ankan_after_riichi_that_loses_a_wait_is_refused() {
    // 1113m waits on 2m and 3m; without the 1m triplet the 2m wait is gone.
    let tiles = make_counts("11113m 456p 789p 123s");
    assert!(!check_ankan_after_riichi(&tiles, 4, TileType(0), false));
    assert!(!check_ankan_after_riichi(&tiles, 4, TileType(0), true));
}

#[test]
fn ankan_after_riichi_of_honours_and_of_fewer_copies() {
    let honours = make_counts("5555z 234p 567s 789s 1m");
    assert!(check_ankan_after_riichi(&honours, 4, TileType(31), true));
    let three = make_counts("111m 234p 567s 789s 55z");
    assert!(!check_ankan_after_riichi(&three, 4, TileType(0), false));
}

#[test]
fn ankan_after_riichi_whose_tile_is_a_wait_is_refused() {
    // 1112233m waits on 1m among others: the kan tile would be a wait.
    let tiles = make_counts("11112233m 456p 789p");
    assert!(!check_ankan_after_riichi(&tiles, 4, TileType(0), false));
    assert!(!check_ankan_after_riichi(&tiles, 4, TileType(0), true));
}

#[test]
fn strict_ankan_after_riichi_compares_the_readings() {
    // 444555666m reads as three triplets or three sequences; after the kan
    // of 5m only one reading is left, so only the loose check allows it.
    let tiles = make_counts("4445555666m 456p 7z");
    assert!(check_ankan_after_riichi(&tiles, 4, TileType(4), false));
    assert!(!check_ankan_after_riichi(&tiles, 4, TileType(4), true));
}
