use riichi::dora::{calculate_dora, dora_from_indicator, is_aka_dora};
use riichi::tile::{Tile, TileType};

#[test]
fn only_zero_copy_fives_are_red() {
    let five_man_copies = [Tile::from_raw(16), Tile::from_raw(17), Tile::from_raw(18), Tile::from_raw(19)];
    assert!(is_aka_dora(five_man_copies[0]));
    assert!(!is_aka_dora(five_man_copies[1]));
}

#[test]
fn fixed_rule_has_one_red_five_per_suit() {
    let tiles = vec![Tile::from_raw(16), Tile::from_raw(17)];
    let result = calculate_dora(&tiles, &[], &[], false);
    assert_eq!(result.aka_dora, 1);
}

#[test]
fn indicators_point_to_the_next_kind_in_their_cycle() {
    assert_eq!(dora_from_indicator(TileType(8)), TileType(0));
    assert_eq!(dora_from_indicator(TileType(4)), TileType(5));
    assert_eq!(dora_from_indicator(TileType(30)), TileType(27));
    assert_eq!(dora_from_indicator(TileType(33)), TileType(31));
    assert_eq!(dora_from_indicator(TileType(31)), TileType(32));
}

#[test]
fn ura_dora_count_only_with_riichi() {
    // Two 1m and one red 5p; indicator 9m -> 1m is dora.
    let tiles = vec![Tile(0), Tile(1), Tile(52)];
    let indicators = [TileType(8)];
    let plain = calculate_dora(&tiles, &indicators, &indicators, false);
    assert_eq!((plain.dora, plain.aka_dora, plain.ura_dora), (2, 1, 0));
    let riichi = calculate_dora(&tiles, &indicators, &indicators, true);
    assert_eq!((riichi.dora, riichi.aka_dora, riichi.ura_dora), (2, 1, 2));
    assert_eq!(riichi.total(), 5);
    assert!(!riichi.is_empty());
}
