use riichi::ai::{call_reply, decide_turn};
use riichi::calls::ResponseAction;
use riichi::legal::TurnAction;
use riichi::tile::{Tile, TileType};

fn tiles(raw: &[u8]) -> Vec<Tile> {
    raw.iter().map(|r| Tile::from_raw(*r)).collect()
}

fn is(action: TurnAction, expected: TurnAction) -> bool {
    format!("{:?}", action) == format!("{:?}", expected)
}

#[test]
fn tsumo_comes_first() {
    let a = decide_turn(true, true, Some(Tile::from_raw(4)), &tiles(&[4]), None, &tiles(&[4, 8]), &tiles(&[4, 8]));
    assert!(is(a, TurnAction::Tsumo));
}

#[test]
fn riichi_uses_the_analysis_pick_or_the_first_option() {
    let options = tiles(&[4, 8]);
    let a = decide_turn(false, true, Some(Tile::from_raw(8)), &options, None, &options, &options);
    assert!(is(a, TurnAction::RiichiDiscard(Tile::from_raw(8))));
    let b = decide_turn(false, true, None, &options, None, &options, &options);
    assert!(is(b, TurnAction::RiichiDiscard(Tile::from_raw(4))));
    let c = decide_turn(false, true, None, &[], Some(TileType(2)), &options, &options);
    assert!(is(c, TurnAction::Discard(Tile::from_raw(8))));
}

#[test]
fn discard_follows_the_picked_kind_among_the_options() {
    let options = tiles(&[4, 9, 10]);
    let a = decide_turn(false, false, None, &[], Some(TileType(2)), &options, &options);
    assert!(is(a, TurnAction::Discard(Tile::from_raw(9))));
    let b = decide_turn(false, false, None, &[], Some(TileType(30)), &options, &options);
    assert!(is(b, TurnAction::Discard(Tile::from_raw(4))));
    let only = tiles(&[40]);
    let c = decide_turn(false, false, None, &[], Some(TileType(2)), &only, &options);
    assert!(is(c, TurnAction::Discard(Tile::from_raw(40))));
    let d = decide_turn(false, false, None, &[], None, &[], &tiles(&[12, 16]));
    assert!(is(d, TurnAction::Discard(Tile::from_raw(16))));
    let e = decide_turn(false, false, None, &[], None, &[], &[]);
    assert!(is(e, TurnAction::Discard(Tile::from_raw(0))));
}

#[test]
fn the_computer_only_ever_rons() {
    assert!(matches!(call_reply(Some(ResponseAction::Ron)), ResponseAction::Ron));
    let pon = ResponseAction::Pon { hand_tiles: [Tile::from_raw(0), Tile::from_raw(1)] };
    assert!(matches!(call_reply(Some(pon)), ResponseAction::Pass));
    assert!(matches!(call_reply(None), ResponseAction::Pass));
}
