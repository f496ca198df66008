use riichi::round_end::{
    advance_round, is_agari_yame, award_leftover_sticks, can_declare_kyuushu, dealer_continues, dealer_of,
    exhaustive_draw_payments, final_ranking, check_four_kan_abort, is_game_over, get_nagashi_mangan_candidates,
    round_end_reason, round_point_changes, check_suufon_renda, resolve_exhaustive_draw, seat_wind, RoundEnd, RoundState,
};
use riichi::tile::{Tile, TileType};

#[test]
fn final_ranking_orders_points_stably() {
    let points = [20_000, 35_000, 35_000, 10_000];
    assert_eq!(final_ranking(points), [1, 2, 0, 3]);
}

#[test]
fn tobi_ends_game_when_enabled() {
    let points = [25_000, 25_000, -100, 25_000];
    assert!(is_game_over(1, true, points, false));
    assert!(!is_game_over(1, false, points, false));
}

#[test]
fn nagashi_mangan_requires_only_terminal_honor_discards() {
    let mut discards: [Vec<Tile>; 4] = [Vec::new(), Vec::new(), Vec::new(), Vec::new()];
    discards[0] = vec![Tile::from_raw(0), Tile::from_raw(108)];
    assert_eq!(get_nagashi_mangan_candidates(&discards, [false; 4]), vec![0]);

    discards[0].push(Tile::from_raw(4));
    assert!(get_nagashi_mangan_candidates(&discards, [false; 4]).is_empty());
}

#[test]
fn south_four_dealer_leading_over_thirty_thousand_ends_game() {
    let points = [25_000, 20_000, 23_000, 32_000];
    let dealer = dealer_of(8);
    assert_eq!(dealer, 3);
    let kept = dealer_continues(&RoundEnd::Win { winner: 3, is_tsumo: true }, dealer, false);
    let yame = is_agari_yame(8, true, kept, points);
    assert!(yame);
    assert!(is_game_over(8, false, points, yame));
}

#[test]
fn final_riichi_sticks_go_to_the_top_player() {
    let points = [30_000, 25_000, 20_000, 20_000];
    let state = RoundState { round: 8, honba: 0, wind: TileType(28) };
    let reason = RoundEnd::Win { winner: 0, is_tsumo: false };
    let kept = dealer_continues(&reason, dealer_of(state.round), false);
    let next = advance_round(state, kept);
    assert_eq!(next.round, 9);
    assert!(is_game_over(next.round, false, points, false));
    let after = award_leftover_sticks(points, 2);
    assert_eq!(after[0], 32_000);
    assert_eq!(&after[1..], &points[1..]);
}

fn kyuushu_hand() -> Vec<Tile> {
    [0u8, 32, 36, 68, 72, 104, 108, 112, 116, 120, 124, 128, 132].iter().map(|&r| Tile::from_raw(r)).collect()
}

#[test]
fn kyuushu_is_available_before_this_players_first_discard() {
    // Seat 0 has discarded; seat 1, on turn, has not.
    assert!(can_declare_kyuushu(true, false, false, &kyuushu_hand(), Some(Tile::from_raw(4))));
}

#[test]
fn kyuushu_is_unavailable_after_this_players_first_discard() {
    assert!(!can_declare_kyuushu(true, false, true, &kyuushu_hand(), Some(Tile::from_raw(4))));
}

#[test]
fn kyuushu_needs_nine_kinds_and_fourteen_tiles() {
    let hand: Vec<Tile> = [0u8, 32, 36, 68, 72, 104, 108, 112, 4, 5, 6, 12, 13].iter().map(|&r| Tile::from_raw(r)).collect();
    // 1m 9m 1p 9p 1s 9s E S: eight kinds only.
    assert!(!can_declare_kyuushu(true, false, false, &hand, Some(Tile::from_raw(16))));
    assert!(can_declare_kyuushu(true, false, false, &hand, Some(Tile::from_raw(120))));
    assert!(!can_declare_kyuushu(true, false, false, &hand, None));
    assert!(!can_declare_kyuushu(true, true, false, &kyuushu_hand(), Some(Tile::from_raw(4))));
    assert!(!can_declare_kyuushu(false, false, false, &kyuushu_hand(), Some(Tile::from_raw(4))));
}

#[test]
fn exhaustive_draw_noten_payments() {
    assert_eq!(exhaustive_draw_payments([true, false, false, false], None, 0), [3000, -1000, -1000, -1000]);
    assert_eq!(exhaustive_draw_payments([true, true, false, false], None, 0), [1500, 1500, -1500, -1500]);
    assert_eq!(exhaustive_draw_payments([true, true, true, false], None, 0), [1000, 1000, 1000, -3000]);
    assert_eq!(exhaustive_draw_payments([true; 4], None, 0), [0; 4]);
    assert_eq!(exhaustive_draw_payments([false; 4], None, 0), [0; 4]);
}

#[test]
fn nagashi_mangan_is_paid_like_a_mangan_tsumo() {
    assert_eq!(exhaustive_draw_payments([false; 4], Some(2), 0), [-4000, -2000, 8000, -2000]);
    assert_eq!(exhaustive_draw_payments([true; 4], Some(0), 0), [12000, -4000, -4000, -4000]);
}

#[test]
fn dealer_keeps_the_seat_on_win_tenpai_or_abort() {
    let s = RoundState { round: 4, honba: 1, wind: TileType(27) };
    assert_eq!(advance_round(s, true), RoundState { round: 4, honba: 2, wind: TileType(27) });
    assert_eq!(advance_round(s, false), RoundState { round: 5, honba: 0, wind: TileType(28) });
    assert!(dealer_continues(&RoundEnd::MultiWin { winners: vec![1, 3] }, 3, false));
    assert!(!dealer_continues(&RoundEnd::MultiWin { winners: vec![1, 2] }, 3, true));
    assert!(dealer_continues(&RoundEnd::ExhaustiveDraw, 0, true));
    assert!(!dealer_continues(&RoundEnd::ExhaustiveDraw, 0, false));
    assert!(dealer_continues(&RoundEnd::SuuKantsu, 0, false));
    assert_eq!(dealer_of(1), 0);
    assert_eq!(dealer_of(5), 0);
    assert_eq!(dealer_of(0), 0);
}

#[test]
fn abortive_draw_conditions() {
    let east = Some(TileType(27));
    assert!(check_suufon_renda(false, 4, [east; 4]));
    assert!(!check_suufon_renda(true, 4, [east; 4]));
    assert!(!check_suufon_renda(false, 5, [east; 4]));
    assert!(!check_suufon_renda(false, 4, [east, east, east, Some(TileType(28))]));
    assert!(!check_suufon_renda(false, 4, [Some(TileType(31)); 4]));
    assert!(check_four_kan_abort(4, &[0, 0, 1, 0]));
    assert!(!check_four_kan_abort(4, &[2, 2, 2, 2]));
    assert!(!check_four_kan_abort(3, &[0, 1, 2]));
}

#[test]
fn round_point_changes_are_the_difference_from_the_round_start() {
    let changes = round_point_changes([33_000, 17_000, 25_000, 25_000], [25_000, 25_000, 25_000, 25_000]);
    assert_eq!(changes, [8_000, -8_000, 0, 0]);
}

#[test]
fn round_end_labels_name_how_the_round_ended() {
    assert_eq!(round_end_reason(&Some(RoundEnd::Win { winner: 1, is_tsumo: true })), "自摸");
    assert_eq!(round_end_reason(&Some(RoundEnd::MultiWin { winners: vec![1, 2] })), "荣和");
    assert_eq!(round_end_reason(&Some(RoundEnd::ExhaustiveDraw)), "流局");
    assert_eq!(round_end_reason(&Some(RoundEnd::SuuKantsu)), "途中流局");
    assert_eq!(round_end_reason(&None), "局结束");
}

fn kinds_hand(kinds: &[u8]) -> Vec<Tile> {
    let mut seen = [0u8; 34];
    kinds
        .iter()
        .map(|k| {
            let copy = seen[*k as usize];
            seen[*k as usize] += 1;
            TileType(*k).with_copy(copy)
        })
        .collect()
}

fn draw_table() -> [Vec<Tile>; 4] {
    let ready = kinds_hand(&[0, 1, 2, 3, 4, 5, 6, 7, 8, 9, 9, 10, 11]);
    let scattered = kinds_hand(&[0, 2, 4, 6, 8, 10, 12, 14, 16, 18, 20, 22, 27]);
    [ready, scattered.clone(), scattered.clone(), scattered]
}

#[test]
fn exhaustive_draw_pays_the_only_ready_seat() {
    let hands = draw_table();
    let discards: [Vec<Tile>; 4] = [vec![Tile::from_raw(20)], vec![], vec![Tile::from_raw(108)], vec![]];
    let p = resolve_exhaustive_draw(&hands, [0; 4], &discards, [false; 4], false, 0);
    assert_eq!(p, [3000, -1000, -1000, -1000]);
}

#[test]
fn exhaustive_draw_pays_a_single_nagashi_mangan() {
    let hands = draw_table();
    let discards: [Vec<Tile>; 4] = [vec![Tile::from_raw(20)], vec![], vec![Tile::from_raw(108), Tile::from_raw(0)], vec![]];
    let p = resolve_exhaustive_draw(&hands, [0; 4], &discards, [false; 4], true, 0);
    assert_eq!(p, [-4000, -2000, 8000, -2000]);
    // Called from, the seat no longer qualifies.
    let p = resolve_exhaustive_draw(&hands, [0; 4], &discards, [false, false, true, false], true, 0);
    assert_eq!(p, [3000, -1000, -1000, -1000]);
}

#[test]
fn the_dealer_sits_east_and_winds_follow_turn_order() {
    assert_eq!(seat_wind(2, 2), TileType(27));
    assert_eq!(seat_wind(3, 2), TileType(28));
    assert_eq!(seat_wind(0, 2), TileType(29));
    assert_eq!(seat_wind(1, 2), TileType(30));
}
