use riichi::scoring::{calculate_points, calculate_points_with_loser};

#[test]
fn ron_transfers_points_from_loser() {
    let changes = calculate_points_with_loser(1, 30, 0, 0, Some(2), 1, 0, 0, false);
    assert_eq!(changes, [1000, 0, -1000, 0]);
    assert_eq!(changes.iter().sum::<i32>(), 0);
}

#[test]
fn honba_is_three_hundred_points_on_ron() {
    let changes = calculate_points_with_loser(1, 30, 0, 0, Some(2), 1, 0, 2, false);
    assert_eq!(changes, [1600, 0, -1600, 0]);
}

#[test]
fn tsumo_honba_is_one_hundred_per_opponent() {
    let changes = calculate_points_with_loser(1, 30, 0, 0, None, 1, 0, 2, true);
    assert_eq!(changes, [1700, -700, -500, -500]);
    assert_eq!(changes.iter().sum::<i32>(), 0);
}

#[test]
fn double_yakuman_uses_two_yakuman_sticks() {
    let changes = calculate_points_with_loser(26, 0, 2, 0, Some(2), 1, 0, 0, false);
    assert_eq!(changes, [64_000, 0, -64_000, 0]);
}

#[test]
fn ron_riichi_sticks_are_not_paid_by_the_loser() {
    let changes = calculate_points_with_loser(1, 30, 0, 0, Some(2), 1, 2, 0, false);
    assert_eq!(changes, [3_000, 0, -1_000, 0]);
}

#[test]
fn high_fu_is_capped_at_mangan() {
    let four_han = calculate_points_with_loser(4, 40, 0, 0, Some(2), 1, 0, 0, false);
    let three_han = calculate_points_with_loser(3, 70, 0, 0, Some(2), 1, 0, 0, false);
    assert_eq!(four_han, [8_000, 0, -8_000, 0]);
    assert_eq!(three_han, [8_000, 0, -8_000, 0]);
}

#[test]
fn dealer_tsumo_is_paid_equally() {
    // Dealer 2 han 30 fu tsumo: 1000 all.
    let changes = calculate_points(2, 30, 0, 1, 1, 0, 0, true);
    assert_eq!(changes, [-1000, 3000, -1000, -1000]);
}

#[test]
fn tsumo_is_zero_sum_with_riichi_sticks_added() {
    let changes = calculate_points_with_loser(3, 40, 0, 2, None, 0, 1, 1, true);
    assert_eq!(changes.iter().sum::<i32>(), 1000);
}

#[test]
fn ron_without_a_discarder_charges_nobody() {
    assert_eq!(calculate_points(1, 30, 0, 0, 1, 0, 0, false), [1000, 0, 0, 0]);
    assert_eq!(calculate_points(1, 30, 0, 0, 1, 0, 2, true), [1700, -700, -500, -500]);
    assert_eq!(
        calculate_points(3, 40, 0, 2, 0, 1, 1, false),
        calculate_points_with_loser(3, 40, 0, 2, None, 0, 1, 1, false)
    );
}
