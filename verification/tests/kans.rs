use riichi::kans::{get_ankan_options, can_declare_kan, get_kan_count, get_kakan_options, kan_owners};
use riichi::round_end::check_four_kan_abort;
use riichi::tile::{Meld, MeldKind, Tile};

fn tiles(raw: &[u8]) -> Vec<Tile> {
    raw.iter().map(|&r| Tile::from_raw(r)).collect()
}

fn meld(kind: MeldKind, raw: &[u8]) -> Meld {
    Meld { kind, tiles: tiles(raw), from_player: None }
}

#[test]
fn closed_kans_come_from_four_in_hand_or_three_and_the_drawn_tile() {
    let hand = tiles(&[0, 4, 1, 2, 5, 3, 6, 40]);
    let options = get_ankan_options(&hand, Some(Tile::from_raw(7)), 50, false, 0);
    assert_eq!(options, tiles(&[0, 7]));
    assert_eq!(get_ankan_options(&hand, Some(Tile::from_raw(41)), 50, false, 0), tiles(&[0]));
    assert!(get_ankan_options(&hand, Some(Tile::from_raw(7)), 0, false, 0).is_empty());
    let waiting = tiles(&[0, 1, 2, 4, 8, 12, 13, 48, 52, 56, 60, 64, 68]);
    assert_eq!(get_ankan_options(&waiting, Some(Tile::from_raw(3)), 50, true, 0), tiles(&[0]));
}

#[test]
fn added_kans_upgrade_pons_with_a_hand_or_drawn_tile() {
    let melds = vec![
        meld(MeldKind::Chi, &[36, 40, 44]),
        meld(MeldKind::Pon, &[8, 9, 10]),
        meld(MeldKind::Pon, &[108, 109, 110]),
    ];
    let hand = tiles(&[11, 20, 24]);
    let options = get_kakan_options(&melds, &hand, Some(Tile::from_raw(111)), 30);
    assert_eq!(options, vec![(1, Tile::from_raw(11)), (2, Tile::from_raw(111))]);
    assert!(get_kakan_options(&melds, &hand, None, 0).is_empty());
    assert_eq!(get_kakan_options(&melds, &hand, None, 30), vec![(1, Tile::from_raw(11))]);
}

#[test]
fn a_fifth_kan_is_for_the_sole_owner_of_four() {
    let four_by_one = [
        vec![meld(MeldKind::Ankan, &[0, 1, 2, 3]), meld(MeldKind::Minkan, &[4, 5, 6, 7])],
        vec![],
        vec![meld(MeldKind::Pon, &[8, 9, 10])],
        vec![],
    ];
    assert_eq!(get_kan_count(&four_by_one), 2);
    let mut seats = four_by_one.clone();
    seats[0].push(meld(MeldKind::Kakan, &[12, 13, 14, 15]));
    seats[0].push(meld(MeldKind::Ankan, &[16, 17, 18, 19]));
    let count = get_kan_count(&seats);
    let owners = kan_owners(&seats);
    assert_eq!(count, 4);
    assert_eq!(owners, vec![0]);
    assert!(can_declare_kan(count, &owners, 0));
    assert!(!can_declare_kan(count, &owners, 1));
    assert!(!check_four_kan_abort(count, &owners));

    let mut shared = four_by_one;
    shared[1].push(meld(MeldKind::Minkan, &[12, 13, 14, 15]));
    shared[3].push(meld(MeldKind::Ankan, &[16, 17, 18, 19]));
    let count = get_kan_count(&shared);
    let owners = kan_owners(&shared);
    assert_eq!(owners, vec![0, 1, 3]);
    assert!(check_four_kan_abort(count, &owners));
    assert!(!can_declare_kan(count, &owners, 0));
    assert!(can_declare_kan(3, &owners, 2));
}
