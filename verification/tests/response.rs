use riichi::player::PlayerId;
use riichi::response::{
    record_response_pass, restore_robbed_kan, execute_multiple_ron, update_discard_furiten, update_pao_after_open_call,
    Furiten, RonError,
};
use riichi::scoring::calculate_points_with_loser;
use riichi::tile::{Meld, MeldKind, Tile, TileType};

fn pon_of(kind: u8, from: usize) -> Meld {
    let tile = TileType(kind).with_copy(0);
    Meld { kind: MeldKind::Pon, tiles: vec![tile; 3], from_player: Some(PlayerId(from)) }
}

#[test]
fn completing_daisangen_records_the_discarder_as_pao_target() {
    let mut melds = vec![pon_of(32, 1), pon_of(33, 1)];
    let called = TileType(31).with_copy(0);
    melds.push(Meld { kind: MeldKind::Pon, tiles: vec![called; 3], from_player: Some(PlayerId(2)) });
    assert_eq!(update_pao_after_open_call(&melds, PlayerId(2), called, None), Some(2));
}

#[test]
fn two_dragon_pons_make_nobody_liable() {
    let melds = vec![pon_of(32, 1), pon_of(33, 2)];
    let called = TileType(33).with_copy(0);
    assert_eq!(update_pao_after_open_call(&melds, PlayerId(2), called, None), None);
}

#[test]
fn completing_four_winds_records_the_discarder() {
    let melds = vec![pon_of(27, 1), pon_of(28, 1), pon_of(29, 3), pon_of(30, 3)];
    let called = TileType(30).with_copy(0);
    assert_eq!(update_pao_after_open_call(&melds, PlayerId(3), called, None), Some(3));
}

#[test]
fn a_closed_kan_does_not_count_as_an_open_triplet() {
    let haku = TileType(31).with_copy(0);
    let melds = vec![
        pon_of(32, 1),
        pon_of(33, 1),
        Meld { kind: MeldKind::Ankan, tiles: vec![haku; 4], from_player: None },
    ];
    assert_eq!(update_pao_after_open_call(&melds, PlayerId(1), TileType(33).with_copy(0), Some(0)), Some(0));
}

fn ron(winner: usize, loser: usize, sticks: u32, honba: u32) -> [i32; 4] {
    calculate_points_with_loser(1, 30, 0, winner, Some(loser), 0, sticks, honba, false)
}

#[test]
fn later_winner_of_a_double_ron_gives_back_sticks_and_honba() {
    let first = ron(1, 0, 2, 1);
    let second = ron(2, 0, 2, 1);
    assert_eq!(first, [-1300, 3300, 0, 0]);
    assert_eq!(second, [-1300, 0, 3300, 0]);
    let settled = execute_multiple_ron(
        &[PlayerId(1), PlayerId(2)],
        &[Some(first), Some(second)],
        PlayerId(0),
        2,
        1,
        [None; 4],
    )
    .unwrap();
    assert_eq!(settled, vec![[-1300, 3300, 0, 0], [-1000, 0, 1000, 0]]);
    let sum: i32 = settled.iter().map(|c| c.iter().sum::<i32>()).sum();
    assert_eq!(sum, 2000);
}

#[test]
fn liable_seat_gets_the_honba_back_for_a_later_winner() {
    let changes = [-1300, 0, 3300, 0];
    let settled = execute_multiple_ron(
        &[PlayerId(1), PlayerId(2)],
        &[Some([-1300, 3300, 0, 0]), Some(changes)],
        PlayerId(0),
        2,
        1,
        [None, None, Some(3), None],
    )
    .unwrap();
    assert_eq!(settled[1], [-1300, 0, 1000, 300]);
}

#[test]
fn multiple_ron_refusals() {
    let some = Some([-1000, 1000, 0, 0]);
    assert_eq!(execute_multiple_ron(&[], &[], PlayerId(0), 0, 0, [None; 4]), Err(RonError::NoWinner));
    assert_eq!(
        execute_multiple_ron(&[PlayerId(0)], &[some], PlayerId(0), 0, 0, [None; 4]),
        Err(RonError::DiscarderWins)
    );
    assert_eq!(
        execute_multiple_ron(&[PlayerId(1), PlayerId(2)], &[some, None], PlayerId(0), 0, 0, [None; 4]),
        Err(RonError::InvalidRon)
    );
    assert_eq!(
        execute_multiple_ron(&[PlayerId(2), PlayerId(0)], &[None, some], PlayerId(0), 0, 0, [None; 4]),
        Err(RonError::InvalidRon)
    );
}

fn waiting_hand() -> Vec<Tile> {
    // 123456789m 11p 23p: waits on 1p and 4p.
    [0u8, 1, 2, 3, 4, 5, 6, 7, 8, 9, 9, 10, 11]
        .iter()
        .enumerate()
        .map(|(i, k)| TileType(*k).with_copy(if i == 10 { 1 } else { 0 }))
        .collect()
}

fn clear() -> Furiten {
    Furiten { discard: false, round: false, riichi: false }
}

#[test]
fn passing_a_wait_raises_the_turn_or_riichi_flag() {
    let hand = waiting_hand();
    let four_pin = TileType(12).with_copy(2);
    assert_eq!(
        record_response_pass(clear(), &hand, 0, false, four_pin),
        Furiten { discard: false, round: true, riichi: false }
    );
    assert_eq!(
        record_response_pass(clear(), &hand, 0, true, four_pin),
        Furiten { discard: false, round: false, riichi: true }
    );
    let east = TileType(27).with_copy(0);
    assert_eq!(record_response_pass(clear(), &hand, 0, false, east), clear());
}

#[test]
fn a_discarded_wait_makes_the_seat_furiten() {
    let hand = waiting_hand();
    let flagged = update_discard_furiten(clear(), &hand, 0, &vec![TileType(27), TileType(12)]);
    assert_eq!(flagged, Furiten { discard: true, round: false, riichi: false });
    let cleared = update_discard_furiten(flagged, &hand, 0, &vec![TileType(27)]);
    assert_eq!(cleared, clear());
}

#[test]
fn robbed_added_kan_returns_to_a_pon() {
    let haku: Vec<Tile> = (124u8..128).map(Tile::from_raw).collect();
    let mut melds = vec![
        pon_of(5, 1),
        Meld { kind: MeldKind::Kakan, tiles: haku.clone(), from_player: Some(PlayerId(2)) },
    ];
    let back = restore_robbed_kan(&mut melds, TileType(31));
    assert_eq!(back, Some(vec![]));
    assert_eq!(melds.len(), 2);
    assert_eq!(melds[1].kind, MeldKind::Pon);
    assert_eq!(melds[1].tiles, haku[..3].to_vec());
    assert_eq!(melds[1].from_player, Some(PlayerId(2)));
}

#[test]
fn robbed_closed_kan_returns_its_tiles() {
    let tiles: Vec<Tile> = (0u8..4).map(Tile::from_raw).collect();
    let mut melds = vec![Meld { kind: MeldKind::Ankan, tiles: tiles.clone(), from_player: None }, pon_of(9, 3)];
    assert_eq!(restore_robbed_kan(&mut melds, TileType(0)), Some(tiles));
    assert_eq!(melds.len(), 1);
    assert_eq!(melds[0].kind, MeldKind::Pon);
    assert_eq!(restore_robbed_kan(&mut melds, TileType(9)), None);
    assert_eq!(melds.len(), 1);
}
