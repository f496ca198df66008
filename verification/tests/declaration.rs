use riichi::declaration::{
    can_declare_riichi, get_riichi_ankan_options, get_riichi_discard_options, get_waiting_tiles, tenpai_info, apply_riichi_event, accept_riichi, RiichiState, RiichiError,
};
use riichi::visibility::VisibleTiles;
use riichi::tile::Tile;

fn tiles(raw: &[u8]) -> Vec<Tile> {
    raw.iter().map(|&r| Tile::from_raw(r)).collect()
}

#[test]
fn riichi_options_only_contain_discards_that_keep_tenpai() {
    let hand = tiles(&[0, 4, 8, 12, 16, 20, 24, 28, 32, 36, 37, 40, 44]);
    let drawn = Some(Tile::from_raw(104));
    let options = get_riichi_discard_options(&hand, drawn, false, true, 25_000, 70);
    assert!(options.contains(&Tile::from_raw(104)));
    assert!(!options.contains(&Tile::from_raw(0)));
    assert!(can_declare_riichi(&hand, drawn, false, true, 25_000, 70));
}

#[test]
fn riichi_needs_a_concealed_hand_points_and_tiles_left() {
    let hand = tiles(&[0, 4, 8, 12, 16, 20, 24, 28, 32, 36, 37, 40, 44]);
    let drawn = Some(Tile::from_raw(104));
    assert!(get_riichi_discard_options(&hand, drawn, true, true, 25_000, 70).is_empty());
    assert!(get_riichi_discard_options(&hand, drawn, false, false, 25_000, 70).is_empty());
    assert!(get_riichi_discard_options(&hand, drawn, false, true, 999, 70).is_empty());
    assert!(get_riichi_discard_options(&hand, drawn, false, true, 1000, 3).is_empty());
    assert!(!can_declare_riichi(&hand, drawn, false, true, 999, 70));
    assert!(!get_riichi_discard_options(&hand, drawn, false, true, 1000, 4).is_empty());
}

#[test]
fn riichi_discards_are_every_ready_leaving_tile_in_hand_order() {
    // 123456789m 1123p + 9s: discarding 9s waits on 1p/4p; discarding a 1p
    // leaves 123p with 9s, ready too (tanki on 9s).
    let hand = tiles(&[0, 4, 8, 12, 16, 20, 24, 28, 32, 36, 37, 40, 44]);
    let options = get_riichi_discard_options(&hand, Some(Tile::from_raw(104)), false, true, 25_000, 70);
    assert_eq!(options, tiles(&[36, 37, 104]));
}

#[test]
fn a_hand_far_from_ready_cannot_declare_riichi() {
    let hand = tiles(&[0, 12, 24, 36, 48, 60, 72, 84, 96, 108, 112, 120, 128]);
    assert!(!can_declare_riichi(&hand, Some(Tile::from_raw(132)), false, true, 25_000, 70));
}

#[test]
fn riichi_ankan_is_forbidden_when_the_kan_skips_the_drawn_tile() {
    let hand = tiles(&[0, 1, 2, 3, 4, 8, 36, 40, 44, 48, 52, 56, 88]);
    assert!(get_riichi_ankan_options(&hand, 0, true, Some(Tile::from_raw(92))).is_empty());
}

#[test]
fn riichi_ankan_is_allowed_when_the_drawn_tile_completes_the_kan() {
    let hand = tiles(&[0, 1, 2, 4, 8, 12, 13, 48, 52, 56, 60, 64, 68]);
    let options = get_riichi_ankan_options(&hand, 0, true, Some(Tile::from_raw(3)));
    assert!(options.iter().any(|t| t.tile_type().0 == 0));
}

#[test]
fn riichi_ankan_that_changes_the_waits_is_refused() {
    // 1113m waits on 2m and 3m; after the kan of 1m only 3m is left.
    let hand = tiles(&[0, 1, 2, 8, 48, 52, 56, 60, 64, 68, 72, 76, 80]);
    assert!(get_riichi_ankan_options(&hand, 0, true, Some(Tile::from_raw(3))).is_empty());
    // Before riichi no kan is offered here at all.
    let allowed = tiles(&[0, 1, 2, 4, 8, 12, 13, 48, 52, 56, 60, 64, 68]);
    assert!(get_riichi_ankan_options(&allowed, 0, false, Some(Tile::from_raw(3))).is_empty());
}

#[test]
fn waits_are_listed_in_kind_order_with_their_unseen_copies() {
    let hand = tiles(&[0, 1, 2, 8, 48, 52, 56, 60, 64, 68, 72, 76, 80]);
    let waits: Vec<u8> = get_waiting_tiles(&hand, 0).iter().map(|t| t.0).collect();
    assert_eq!(waits, vec![1, 2]);
    let mut no_yaku = [false; 34];
    no_yaku[1] = true;
    let info = tenpai_info(&hand, 0, &VisibleTiles::new(), &no_yaku, true).unwrap();
    assert!(info.is_furiten);
    assert_eq!(info.waits.len(), 2);
    assert_eq!((info.waits[0].tile_type.0, info.waits[0].remaining, info.waits[0].is_no_yaku), (1, 4, true));
    assert_eq!((info.waits[1].tile_type.0, info.waits[1].remaining, info.waits[1].is_no_yaku), (2, 3, false));
}

#[test]
fn a_hand_that_waits_on_nothing_has_no_tenpai_info() {
    let hand = tiles(&[0, 12, 24, 36, 48, 60, 72, 84, 96, 108, 112, 120, 128]);
    assert!(get_waiting_tiles(&hand, 0).is_empty());
    assert!(tenpai_info(&hand, 0, &VisibleTiles::new(), &[false; 34], false).is_none());
}

fn fresh(points: i32) -> RiichiState {
    RiichiState { declared: false, is_riichi: false, double_riichi: false, points }
}

#[test]
fn riichi_is_paid_when_accepted_not_when_declared() {
    let mut state = fresh(25000);
    let mut sticks = 1u32;
    assert_eq!(apply_riichi_event(&mut state, true), Ok(()));
    assert_eq!(state, RiichiState { declared: true, is_riichi: false, double_riichi: true, points: 25000 });
    accept_riichi(&mut state, &mut sticks);
    assert_eq!(state.points, 24000);
    assert!(state.is_riichi);
    assert_eq!(sticks, 2);
    // A second acceptance changes nothing.
    accept_riichi(&mut state, &mut sticks);
    assert_eq!(state.points, 24000);
    assert_eq!(sticks, 2);
}

#[test]
fn riichi_declaration_refusals() {
    let mut poor = fresh(900);
    assert_eq!(apply_riichi_event(&mut poor, false), Err(RiichiError::NotEnoughPoints));
    assert_eq!(poor, fresh(900));
    let mut state = fresh(1000);
    assert_eq!(apply_riichi_event(&mut state, false), Ok(()));
    assert_eq!(apply_riichi_event(&mut state, false), Err(RiichiError::AlreadyDeclared));
    let mut sticks = 0u32;
    let mut undeclared = fresh(30000);
    accept_riichi(&mut undeclared, &mut sticks);
    assert_eq!(undeclared, fresh(30000));
    assert_eq!(sticks, 0);
}
