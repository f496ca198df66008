use riichi::player::PlayerId;
use riichi::fu::calculate_fu;
use riichi::model::{ClosedGroup, MentsuKind, WinSituation, WinningHand, WinningTilePlacement, YakuName, YakuResult};
use riichi::tile::{Meld, MeldKind, Tile, TileType};

fn sequence(tile_type: TileType) -> ClosedGroup {
    ClosedGroup { kind: MentsuKind::Shuntsu, tile_type }
}

fn triplet(tile_type: TileType) -> ClosedGroup {
    ClosedGroup { kind: MentsuKind::Koutsu, tile_type }
}

fn situation(is_tsumo: bool) -> WinSituation {
    WinSituation {
        is_tsumo,
        is_riichi: false,
        is_double_riichi: false,
        is_ippatsu: false,
        is_rinshan: false,
        is_chankan: false,
        is_haitei: false,
        is_houtei: false,
        is_tenhou: false,
        is_chiihou: false,
        seat_wind: TileType(27),
        field_wind: TileType(27),
    }
}

fn pon_of(t: TileType) -> Meld {
    Meld { kind: MeldKind::Pon, tiles: vec![Tile(t.0 * 4), Tile(t.0 * 4 + 1), Tile(t.0 * 4 + 2)], from_player: Some(PlayerId(1)) }
}

#[test]
fn ron_completed_triplet_uses_minkou_fu() {
    let hand = WinningHand::Standard {
        pair: TileType(27),
        groups: vec![triplet(TileType(4)), triplet(TileType(14)), sequence(TileType(18)), sequence(TileType(21))],
    };
    let fu = calculate_fu(&hand, &[], &[], &situation(false), TileType(4), WinningTilePlacement::Group(0));
    // 20 base + 10 concealed ron + 4 double-wind pair + 2 open triplet + 4 concealed triplet = 40.
    assert_eq!(fu, 40);
}

#[test]
fn edge_wait_fu_only_applies_to_the_edge_side() {
    let hand = WinningHand::Standard {
        pair: TileType(10),
        groups: vec![sequence(TileType(0)), sequence(TileType(3)), sequence(TileType(6)), sequence(TileType(1))],
    };

    let two_sided = calculate_fu(&hand, &[], &[], &situation(false), TileType(0), WinningTilePlacement::Group(0));
    let edge = calculate_fu(&hand, &[], &[], &situation(false), TileType(2), WinningTilePlacement::Group(0));

    assert_eq!(two_sided, 30);
    assert_eq!(edge, 40);
}

#[test]
fn open_pon_contributes_two_or_four_fu() {
    let hand = WinningHand::Standard {
        pair: TileType(10),
        groups: vec![triplet(TileType(1)), triplet(TileType(2)), sequence(TileType(12))],
    };
    let simple_pon = pon_of(TileType(22));
    let terminal_pon = pon_of(TileType(0));

    let simple_fu = calculate_fu(&hand, &[simple_pon], &[], &situation(false), TileType(12), WinningTilePlacement::Group(2));
    let terminal_fu =
        calculate_fu(&hand, &[terminal_pon], &[], &situation(false), TileType(12), WinningTilePlacement::Group(2));

    assert_eq!(simple_fu, 30);
    assert_eq!(terminal_fu, 40);
}

#[test]
fn seven_pairs_are_always_twenty_five_fu() {
    let hand = WinningHand::SevenPairs {
        pairs: [TileType(0), TileType(3), TileType(9), TileType(12), TileType(20), TileType(27), TileType(31)],
    };
    let chiitoitsu = [YakuResult::new(YakuName::Chiitoitsu, 2)];
    let fu = calculate_fu(&hand, &[], &chiitoitsu, &situation(true), TileType(0), WinningTilePlacement::Pair);
    assert_eq!(fu, 25);
}

#[test]
fn pinfu_yaku_tsumo_fixes_twenty_fu() {
    let hand = WinningHand::Standard {
        pair: TileType(10),
        groups: vec![sequence(TileType(0)), sequence(TileType(3)), sequence(TileType(12)), sequence(TileType(20))],
    };
    let pinfu = [YakuResult::new(YakuName::Pinfu, 1)];
    let fu = calculate_fu(&hand, &[], &pinfu, &situation(true), TileType(3), WinningTilePlacement::Group(1));
    assert_eq!(fu, 20);
}

#[test]
fn closed_wait_on_the_middle_of_one_two_three_counts() {
    let hand = WinningHand::Standard {
        pair: TileType(10),
        groups: vec![sequence(TileType(0)), sequence(TileType(3)), sequence(TileType(6)), sequence(TileType(19))],
    };
    // 1m-3m waiting on 2m: a closed wait, 2 fu (20 + 10 concealed ron + 2 = 32, rounded to 40).
    let closed = calculate_fu(&hand, &[], &[], &situation(false), TileType(1), WinningTilePlacement::Group(0));
    assert_eq!(closed, 40);
}
