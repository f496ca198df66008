use riichi::counts::TileCounts;
use riichi::player::PlayerId;
use riichi::tile::{Meld, MeldKind, Tile, TileType};
use riichi::visibility::{build_visible_tiles, remaining_copies_for};

fn tiles(raw: &[u8]) -> Vec<Tile> {
    raw.iter().map(|r| Tile::from_raw(*r)).collect()
}

fn table() -> ([Vec<Meld>; 4], [Vec<Tile>; 4]) {
    let pon = Meld { kind: MeldKind::Pon, tiles: tiles(&[20, 21, 22]), from_player: Some(PlayerId(2)) };
    let chi = Meld { kind: MeldKind::Chi, tiles: tiles(&[0, 4, 8]), from_player: Some(PlayerId(0)) };
    let melds = [vec![pon], vec![chi], vec![], vec![]];
    let discards = [vec![], tiles(&[23]), tiles(&[108]), tiles(&[109])];
    (melds, discards)
}

#[test]
fn visible_tiles_split_own_calls_from_the_others() {
    let (melds, discards) = table();
    let v = build_visible_tiles(&melds, &discards, &[TileType(5)], PlayerId(0));
    assert_eq!(v.hand_melds.get(TileType(5)), 3);
    assert_eq!(v.all_melds.get(TileType(5)), 0);
    assert_eq!(v.all_melds.get(TileType(0)), 1);
    assert_eq!(v.all_melds.get(TileType(2)), 1);
    assert_eq!(v.all_discards.get(TileType(27)), 2);
    assert_eq!(v.all_discards.get(TileType(5)), 1);
    assert_eq!(v.dora_indicators.get(TileType(5)), 1);

    let w = build_visible_tiles(&melds, &discards, &[], PlayerId(1));
    assert_eq!(w.hand_melds.get(TileType(0)), 1);
    assert_eq!(w.all_melds.get(TileType(5)), 3);
    assert_eq!(w.dora_indicators.get(TileType(5)), 0);
}

#[test]
fn every_copy_of_a_kind_can_be_seen() {
    let (melds, discards) = table();
    let v = build_visible_tiles(&melds, &discards, &[TileType(5)], PlayerId(3));
    // Three in a pon, one discarded and one indicator: none left unseen.
    assert_eq!(remaining_copies_for(TileType(5), &TileCounts::new(), &v), 0);
    assert_eq!(remaining_copies_for(TileType(27), &TileCounts::new(), &v), 2);
}
