use riichi::point::{is_valid_fu_han, Payout};

#[test]
fn test_full_table_consistency() {
    let fus = [20, 25, 30, 40, 50, 60, 70, 80, 90, 100, 110];
    for &fu in &fus {
        for han in 1..=14 {
            if han == 1 && (fu < 30 || fu == 50) {
                continue;
            }
            let base = if han >= 13 {
                8000
            } else if han >= 11 {
                6000
            } else if han >= 8 {
                4000
            } else if han >= 6 {
                3000
            } else if han >= 5 {
                2000
            } else {
                (fu as i32 * 2_i32.pow(2 + han)).min(2000)
            };
            let points = |mult: i32| (base * mult + 99) / 100 * 100;

            let p = Payout::lookup(false, fu as u8, han as u8);
            assert_eq!(p.tsumo_non_dealer, points(1), "{fu}/{han}");
            assert_eq!(p.tsumo_dealer, points(2), "{fu}/{han}");
            assert_eq!(p.ron, points(4), "{fu}/{han}");

            let p = Payout::lookup(true, fu as u8, han as u8);
            assert_eq!(p.tsumo_non_dealer, points(2), "{fu}/{han}");
            assert_eq!(p.ron, points(6), "{fu}/{han}");
        }
    }
}

#[test]
fn test_specific_cases() {
    assert_eq!(
        Payout::lookup(false, 30, 1),
        Payout {
            ron: 1000,
            tsumo_non_dealer: 300,
            tsumo_dealer: 500
        }
    );
    assert_eq!(
        Payout::lookup(true, 40, 3),
        Payout {
            ron: 7700,
            tsumo_non_dealer: 2600,
            tsumo_dealer: 0
        }
    );
}

#[test]
fn test_yakuman_values() {
    assert_eq!(
        Payout::yakuman(false, 1),
        Payout {
            ron: 32000,
            tsumo_non_dealer: 8000,
            tsumo_dealer: 16000
        }
    );
    assert_eq!(
        Payout::yakuman(true, 2),
        Payout {
            ron: 96000,
            tsumo_non_dealer: 32000,
            tsumo_dealer: 0
        }
    );
}

#[test]
fn tsumo_totals_add_up_the_shares() {
    let p = Payout::lookup(false, 30, 4);
    assert_eq!(p.tsumo_total(false), 2000 * 2 + 3900);
    let d = Payout::lookup(true, 30, 4);
    assert_eq!(d.tsumo_total(true), 3900 * 3);
}

#[test]
fn mangan_from_five_han_needs_no_fu() {
    assert_eq!(Payout::lookup(false, 0, 5), Payout { ron: 8000, tsumo_non_dealer: 2000, tsumo_dealer: 4000 });
    assert_eq!(Payout::lookup(true, 0, 13), Payout { ron: 48000, tsumo_non_dealer: 16000, tsumo_dealer: 0 });
    assert_eq!(Payout::default(), Payout { ron: 0, tsumo_non_dealer: 0, tsumo_dealer: 0 });
}

#[test]
fn payable_pairs_are_those_of_the_table() {
    assert!(is_valid_fu_han(30, 1));
    assert!(!is_valid_fu_han(20, 1));
    assert!(is_valid_fu_han(25, 2));
    assert!(!is_valid_fu_han(120, 2));
    assert!(is_valid_fu_han(80, 3));
    assert!(!is_valid_fu_han(30, 0));
    assert!(is_valid_fu_han(0, 5));
}

#[test]
fn yakuman_counts_up_to_the_i32_limit() {
    let p = Payout::yakuman(true, 44739);
    assert_eq!(p.ron, 48000 * 44739);
    let q = Payout::yakuman(false, 67108);
    assert_eq!(q.ron, 32000 * 67108);
    let one = Payout::yakuman(false, 1);
    assert_eq!(one.tsumo_total(false), one.ron);
    let mangan = Payout::lookup(true, 30, 5);
    assert_eq!(mangan.tsumo_total(true), mangan.ron);
}
