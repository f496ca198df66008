use riichi::channel::{state_update_for, GamePhase, TableState};
use riichi::player::PlayerId;
use riichi::tile::{Meld, MeldKind, Tile, TileType};

fn tiles(raw: &[u8]) -> Vec<Tile> {
    raw.iter().map(|r| Tile::from_raw(*r)).collect()
}

fn table(third_hand: &[u8]) -> TableState {
    let pon = Meld { kind: MeldKind::Pon, tiles: tiles(&[20, 21, 22]), from_player: Some(PlayerId(2)) };
    TableState {
        phase: GamePhase::ActionPhase,
        current_player: PlayerId(0),
        pending_discard: None,
        drawn_tile: Some(Tile::from_raw(100)),
        hands: [tiles(&[0, 4, 8]), tiles(&[40, 44]), tiles(third_hand), tiles(&[120])],
        points: [25000, 24000, 26000, 25000],
        winds: [TileType(27), TileType(28), TileType(29), TileType(30)],
        is_riichi: [false, true, false, false],
        discards: [tiles(&[108]), vec![], tiles(&[112, 116]), vec![]],
        melds: [vec![], vec![pon], vec![], vec![]],
        dora: vec![TileType(5)],
        remaining_tiles: 60,
        round: 2,
        honba: 1,
        riichi_sticks: 1,
    }
}

#[test]
fn the_player_to_move_sees_its_drawn_tile() {
    let u = state_update_for(&table(&[60, 64]), PlayerId(0), None);
    assert_eq!(u.hand_tiles, tiles(&[0, 4, 8, 100]));
    assert_eq!(u.drawn_tile, Some(Tile::from_raw(100)));
    assert_eq!(u.hand_count, 3);
    assert_eq!(u.hand_counts, [3, 2, 2, 1]);
    assert_eq!(u.melds_count, [0, 1, 0, 0]);
    assert_eq!(u.melds[1][0].tiles, tiles(&[20, 21, 22]));
    assert_eq!(u.discards[2], tiles(&[112, 116]));
    assert_eq!(u.points, [25000, 24000, 26000, 25000]);
}

#[test]
fn other_seats_see_neither_hands_nor_the_drawn_tile() {
    let u = state_update_for(&table(&[60, 64]), PlayerId(1), None);
    assert_eq!(u.hand_tiles, tiles(&[40, 44]));
    assert_eq!(u.drawn_tile, None);
    // Changing a third seat's concealed tiles changes nothing seat 1 is told.
    let v = state_update_for(&table(&[72, 76]), PlayerId(1), None);
    assert_eq!(format!("{:?}", u), format!("{:?}", v));
}
