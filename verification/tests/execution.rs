use riichi::calls::ResponseAction;
use riichi::execution::{discard, execute_ankan, execute_call, execute_kakan, ExecError};
use riichi::player::PlayerId;
use riichi::tile::{Meld, MeldKind, Tile, TileType};

fn tiles(raw: &[u8]) -> Vec<Tile> {
    raw.iter().map(|r| Tile::from_raw(*r)).collect()
}

fn sorted(mut v: Vec<Tile>) -> Vec<u8> {
    v.sort_by_key(|t| t.0);
    v.iter().map(|t| t.0).collect()
}

#[test]
fn discarding_the_drawn_tile_leaves_the_hand() {
    let mut hand = tiles(&[0, 4, 8]);
    assert_eq!(discard(&mut hand, Some(Tile::from_raw(12)), Tile::from_raw(12), &vec![], false), Ok(()));
    assert_eq!(sorted(hand), vec![0, 4, 8]);
}

#[test]
fn discarding_from_the_hand_keeps_the_drawn_tile() {
    let mut hand = tiles(&[0, 4, 8]);
    assert_eq!(discard(&mut hand, Some(Tile::from_raw(12)), Tile::from_raw(4), &vec![], false), Ok(()));
    assert_eq!(sorted(hand), vec![0, 8, 12]);
}

#[test]
fn discard_refusals() {
    let drawn = Some(Tile::from_raw(12));
    let mut hand = tiles(&[0, 4, 8]);
    assert_eq!(
        discard(&mut hand, drawn, Tile::from_raw(4), &vec![TileType(1)], false),
        Err(ExecError::Kuikae)
    );
    assert_eq!(discard(&mut hand, drawn, Tile::from_raw(4), &vec![], true), Err(ExecError::RiichiDrawnOnly));
    assert_eq!(sorted(hand.clone()), vec![0, 4, 8]);
    assert_eq!(
        discard(&mut hand, drawn, Tile::from_raw(100), &vec![], false),
        Err(ExecError::TileNotInHand(Tile::from_raw(100)))
    );
    assert_eq!(sorted(hand), vec![0, 4, 8, 12]);
}

#[test]
fn pon_moves_two_hand_tiles_and_the_discard_into_a_call() {
    let mut hand = tiles(&[8, 9, 20, 40]);
    let mut melds = Vec::new();
    let pon = ResponseAction::Pon { hand_tiles: [Tile::from_raw(8), Tile::from_raw(9)] };
    assert_eq!(execute_call(&mut hand, &mut melds, pon, Tile::from_raw(10), PlayerId(3), 0), Ok(()));
    assert_eq!(sorted(hand), vec![20, 40]);
    assert_eq!(melds.len(), 1);
    assert_eq!(melds[0].kind, MeldKind::Pon);
    assert_eq!(melds[0].tiles, tiles(&[8, 9, 10]));
    assert_eq!(melds[0].from_player, Some(PlayerId(3)));
}

#[test]
fn chi_and_open_kan_build_their_calls() {
    let mut hand = tiles(&[4, 8, 20, 21, 22]);
    let mut melds = Vec::new();
    let chi = ResponseAction::Chi { hand_tiles: [Tile::from_raw(4), Tile::from_raw(8)] };
    assert_eq!(execute_call(&mut hand, &mut melds, chi, Tile::from_raw(0), PlayerId(1), 0), Ok(()));
    let kan = ResponseAction::Minkan { hand_tiles: [Tile::from_raw(20), Tile::from_raw(21), Tile::from_raw(22)] };
    assert_eq!(execute_call(&mut hand, &mut melds, kan, Tile::from_raw(23), PlayerId(2), 1), Ok(()));
    assert!(hand.is_empty());
    assert_eq!(melds[0].kind, MeldKind::Chi);
    assert_eq!(melds[0].tiles, tiles(&[4, 8, 0]));
    assert_eq!(melds[1].kind, MeldKind::Minkan);
    assert_eq!(melds[1].tiles, tiles(&[20, 21, 22, 23]));
}

#[test]
fn call_refusals() {
    let mut hand = tiles(&[8, 20, 21, 22]);
    let mut melds = Vec::new();
    assert_eq!(
        execute_call(&mut hand, &mut melds, ResponseAction::Pass, Tile::from_raw(10), PlayerId(0), 0),
        Err(ExecError::NotACall)
    );
    let kan = ResponseAction::Minkan { hand_tiles: [Tile::from_raw(20), Tile::from_raw(21), Tile::from_raw(22)] };
    assert_eq!(execute_call(&mut hand, &mut melds, kan, Tile::from_raw(23), PlayerId(0), 4), Err(ExecError::KanLimit));
    let pon = ResponseAction::Pon { hand_tiles: [Tile::from_raw(8), Tile::from_raw(11)] };
    assert_eq!(
        execute_call(&mut hand, &mut melds, pon, Tile::from_raw(10), PlayerId(0), 0),
        Err(ExecError::TileNotInHand(Tile::from_raw(11)))
    );
    // The tiles found before the missing one are already out of the hand.
    assert_eq!(sorted(hand), vec![20, 21, 22]);
    assert!(melds.is_empty());
}

#[test]
fn closed_kan_takes_the_drawn_fourth_copy() {
    let mut hand = tiles(&[0, 1, 2, 40, 44]);
    let mut melds = Vec::new();
    assert_eq!(execute_ankan(&mut hand, &mut melds, Some(Tile::from_raw(3)), Tile::from_raw(0), false, 10, 0), Ok(()));
    assert_eq!(hand, tiles(&[40, 44]));
    assert_eq!(melds[0].kind, MeldKind::Ankan);
    assert_eq!(melds[0].tiles, tiles(&[0, 1, 2, 3]));
    assert_eq!(melds[0].from_player, None);
}

#[test]
fn closed_kan_refusals() {
    let mut hand = tiles(&[0, 1, 2, 3, 44]);
    let mut melds = Vec::new();
    let tile = Tile::from_raw(0);
    assert_eq!(execute_ankan(&mut hand, &mut melds, None, tile, false, 0, 0), Err(ExecError::LastTile));
    assert_eq!(
        execute_ankan(&mut hand, &mut melds, None, Tile::from_raw(44), false, 10, 0),
        Err(ExecError::NotFourOfAKind)
    );
    assert_eq!(execute_ankan(&mut hand, &mut melds, None, tile, false, 10, 4), Err(ExecError::KanLimit));
    // In riichi only a kan on the drawn tile's kind that keeps the waits is allowed.
    assert_eq!(
        execute_ankan(&mut hand, &mut melds, Some(Tile::from_raw(40)), tile, true, 10, 0),
        Err(ExecError::RiichiKanChangesWaits)
    );
    assert_eq!(hand, tiles(&[0, 1, 2, 3, 44]));
    assert!(melds.is_empty());
}

#[test]
fn riichi_kan_that_keeps_the_waits_is_made() {
    // 111m 234p 567s 99s EE: waits on 9s and East; drawing the fourth 1m.
    let mut hand = tiles(&[0, 1, 2, 40, 44, 48, 88, 92, 96, 104, 105, 108, 109]);
    let mut melds = Vec::new();
    assert_eq!(execute_ankan(&mut hand, &mut melds, Some(Tile::from_raw(3)), Tile::from_raw(3), true, 10, 0), Ok(()));
    assert_eq!(hand, tiles(&[40, 44, 48, 88, 92, 96, 104, 105, 108, 109]));
    assert_eq!(melds[0].tiles, tiles(&[0, 1, 2, 3]));
}

#[test]
fn added_kan_upgrades_the_pon() {
    let pon = Meld { kind: MeldKind::Pon, tiles: tiles(&[20, 21, 22]), from_player: Some(PlayerId(1)) };
    let mut melds = vec![pon];
    let mut hand = tiles(&[23, 40]);
    assert_eq!(execute_kakan(&mut hand, &mut melds, 0, Some(Tile::from_raw(44)), Tile::from_raw(23), 10, 0), Ok(()));
    assert_eq!(sorted(hand), vec![40, 44]);
    assert_eq!(melds[0].kind, MeldKind::Kakan);
    assert_eq!(melds[0].tiles, tiles(&[20, 21, 22, 23]));
    assert_eq!(melds[0].from_player, Some(PlayerId(1)));
}

#[test]
fn added_kan_refusals() {
    let pon = Meld { kind: MeldKind::Pon, tiles: tiles(&[20, 21, 22]), from_player: Some(PlayerId(1)) };
    let chi = Meld { kind: MeldKind::Chi, tiles: tiles(&[0, 4, 8]), from_player: Some(PlayerId(3)) };
    let mut melds = vec![pon, chi];
    let mut hand = tiles(&[23, 40]);
    let four = Tile::from_raw(23);
    assert_eq!(execute_kakan(&mut hand, &mut melds, 0, None, four, 0, 0), Err(ExecError::LastTile));
    assert_eq!(execute_kakan(&mut hand, &mut melds, 1, None, four, 10, 0), Err(ExecError::NotAPon));
    assert_eq!(
        execute_kakan(&mut hand, &mut melds, 0, None, Tile::from_raw(40), 10, 0),
        Err(ExecError::KindMismatch)
    );
    assert_eq!(execute_kakan(&mut hand, &mut melds, 0, None, four, 10, 4), Err(ExecError::KanLimit));
    let mut other = tiles(&[40]);
    assert_eq!(
        execute_kakan(&mut other, &mut melds, 0, Some(Tile::from_raw(44)), four, 10, 0),
        Err(ExecError::TileNotInHand(four))
    );
    assert_eq!(sorted(other), vec![40, 44]);
    assert_eq!(melds[0].kind, MeldKind::Pon);
}
