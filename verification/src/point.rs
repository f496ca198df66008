use vstd::prelude::*;

verus! {

/// What the winner receives: `ron` from the discarder, or on tsumo
/// `tsumo_non_dealer` from each non-dealer and `tsumo_dealer` from the dealer
/// (zero when the winner is the dealer).
#[derive(Debug, Clone, Copy, PartialEq, Eq, Structural)]
pub struct Payout {
    pub ron: i32,
    pub tsumo_non_dealer: i32,
    pub tsumo_dealer: i32,
}

impl Default for Payout {
    fn default() -> (p: Self)
        ensures
            p == (Payout { ron: 0, tsumo_non_dealer: 0, tsumo_dealer: 0 }),
    {
        Payout { ron: 0, tsumo_non_dealer: 0, tsumo_dealer: 0 }
    }
}

/// The fu/han pairs that the payout table lists: below five han only the
/// fu values that occur in play, from five han on any fu.
pub open spec fn valid_fu_han(fu: int, han: int) -> bool {
    if han >= 5 {
        true
    } else if han == 4 {
        fu == 20 || fu == 25 || fu == 30 || fu >= 40
    } else if han == 3 {
        fu == 20 || fu == 25 || fu == 30 || fu == 40 || fu == 50 || fu == 60 || fu >= 70
    } else if han == 2 {
        fu == 20 || fu == 25 || fu == 30 || fu == 40 || fu == 50 || fu == 60 || fu == 70 || fu
            == 80 || fu == 90 || fu == 100 || fu == 110
    } else if han == 1 {
        fu == 30 || fu == 40 || fu == 50 || fu == 60 || fu == 70 || fu == 80 || fu == 90 || fu
            == 100 || fu == 110
    } else {
        false
    }
}

/// Base points: fu × 2^(han+2) capped at mangan (2000), then the fixed
/// limits of haneman, baiman, sanbaiman and kazoe yakuman.
pub open spec fn table_base(fu: int, han: int) -> int {
    if han >= 13 {
        8000
    } else if han >= 11 {
        6000
    } else if han >= 8 {
        4000
    } else if han >= 6 {
        3000
    } else if han >= 5 {
        2000
    } else {
        let raw = fu * vstd::arithmetic::power2::pow2((2 + han) as nat);
        if raw < 2000 {
            raw
        } else {
            2000
        }
    }
}

/// Base points times `mult`, rounded up to a multiple of 100.
pub open spec fn table_points(fu: int, han: int, mult: int) -> int {
    (table_base(fu, han) * mult + 99) / 100 * 100
}

/// The payout that the formula gives.
pub open spec fn payout_formula(is_dealer: bool, fu: int, han: int) -> Payout {
    if is_dealer {
        Payout {
            ron: table_points(fu, han, 6) as i32,
            tsumo_non_dealer: table_points(fu, han, 2) as i32,
            tsumo_dealer: 0,
        }
    } else {
        Payout {
            ron: table_points(fu, han, 4) as i32,
            tsumo_non_dealer: table_points(fu, han, 1) as i32,
            tsumo_dealer: table_points(fu, han, 2) as i32,
        }
    }
}

pub open spec fn yakuman_formula(is_dealer: bool, count: int) -> Payout {
    if is_dealer {
        Payout {
            ron: (48000 * count) as i32,
            tsumo_non_dealer: (16000 * count) as i32,
            tsumo_dealer: 0,
        }
    } else {
        Payout {
            ron: (32000 * count) as i32,
            tsumo_non_dealer: (8000 * count) as i32,
            tsumo_dealer: (16000 * count) as i32,
        }
    }
}

pub open spec fn tsumo_total_spec(p: Payout, is_dealer: bool) -> int {
    if is_dealer {
        p.tsumo_non_dealer * 3
    } else {
        p.tsumo_non_dealer * 2 + p.tsumo_dealer
    }
}

proof fn lemma_base_values(fu: int, han: int)
    requires
        0 <= fu,
        1 <= han <= 4,
    ensures
        table_base(fu, han) == if fu * (if han == 1 {
            8int
        } else if han == 2 {
            16int
        } else if han == 3 {
            32int
        } else {
            64int
        }) < 2000 {
            fu * (if han == 1 {
                8int
            } else if han == 2 {
                16int
            } else if han == 3 {
                32int
            } else {
                64int
            })
        } else {
            2000
        },
{
    vstd::arithmetic::power2::lemma2_to64();
}

/// The table row for non-dealers: (ron, tsumo from a non-dealer, tsumo from the dealer).
fn non_dealer_row(fu: u8, han: u8) -> (r: (i32, i32, i32))
    requires
        valid_fu_han(fu as int, han as int),
    ensures
        r.0 == table_points(fu as int, han as int, 4),
        r.1 == table_points(fu as int, han as int, 1),
        r.2 == table_points(fu as int, han as int, 2),
{
    proof {
        if han <= 4 {
            lemma_base_values(fu as int, han as int);
        }
    }
    if (fu == 20 && han == 2) || (fu == 40 && han == 1) {
        (1300, 400, 700)
    } else if (fu == 20 && han == 3) || (fu == 40 && han == 2) || (fu == 80 && han == 1) {
        (2600, 700, 1300)
    } else if (fu == 20 && han == 4) || (fu == 40 && han == 3) || (fu == 80 && han == 2) {
        (5200, 1300, 2600)
    } else if (fu == 25 && han == 2) || (fu == 50 && han == 1) {
        (1600, 400, 800)
    } else if (fu == 25 && han == 3) || (fu == 50 && han == 2) || (fu == 100 && han == 1) {
        (3200, 800, 1600)
    } else if (fu == 25 && han == 4) || (fu == 50 && han == 3) || (fu == 100 && han == 2) {
        (6400, 1600, 3200)
    } else if fu == 30 && han == 1 {
        (1000, 300, 500)
    } else if (fu == 30 && han == 2) || (fu == 60 && han == 1) {
        (2000, 500, 1000)
    } else if (fu == 30 && han == 3) || (fu == 60 && han == 2) {
        (3900, 1000, 2000)
    } else if (fu == 30 && han == 4) || (fu == 60 && han == 3) {
        (7700, 2000, 3900)
    } else if fu == 70 && han == 1 {
        (2300, 600, 1200)
    } else if fu == 70 && han == 2 {
        (4500, 1200, 2300)
    } else if fu == 90 && han == 1 {
        (2900, 800, 1500)
    } else if fu == 90 && han == 2 {
        (5800, 1500, 2900)
    } else if fu == 110 && han == 1 {
        (3600, 900, 1800)
    } else if fu == 110 && han == 2 {
        (7100, 1800, 3600)
    } else if han == 5 || (fu >= 40 && han == 4) || (fu >= 70 && han == 3) {
        (8000, 2000, 4000)
    } else if 6 <= han && han <= 7 {
        (12000, 3000, 6000)
    } else if 8 <= han && han <= 10 {
        (16000, 4000, 8000)
    } else if 11 <= han && han <= 12 {
        (24000, 6000, 12000)
    } else {
        (32000, 8000, 16000)
    }
}

/// The table row for the dealer: (ron, tsumo from each non-dealer).
fn dealer_row(fu: u8, han: u8) -> (r: (i32, i32))
    requires
        valid_fu_han(fu as int, han as int),
    ensures
        r.0 == table_points(fu as int, han as int, 6),
        r.1 == table_points(fu as int, han as int, 2),
{
    proof {
        if han <= 4 {
            lemma_base_values(fu as int, han as int);
        }
    }
    if (fu == 20 && han == 2) || (fu == 40 && han == 1) {
        (2000, 700)
    } else if (fu == 20 && han == 3) || (fu == 40 && han == 2) || (fu == 80 && han == 1) {
        (3900, 1300)
    } else if (fu == 20 && han == 4) || (fu == 40 && han == 3) || (fu == 80 && han == 2) {
        (7700, 2600)
    } else if (fu == 25 && han == 2) || (fu == 50 && han == 1) {
        (2400, 800)
    } else if (fu == 25 && han == 3) || (fu == 50 && han == 2) || (fu == 100 && han == 1) {
        (4800, 1600)
    } else if (fu == 25 && han == 4) || (fu == 50 && han == 3) || (fu == 100 && han == 2) {
        (9600, 3200)
    } else if fu == 30 && han == 1 {
        (1500, 500)
    } else if (fu == 30 && han == 2) || (fu == 60 && han == 1) {
        (2900, 1000)
    } else if (fu == 30 && han == 3) || (fu == 60 && han == 2) {
        (5800, 2000)
    } else if (fu == 30 && han == 4) || (fu == 60 && han == 3) {
        (11600, 3900)
    } else if fu == 70 && han == 1 {
        (3400, 1200)
    } else if fu == 70 && han == 2 {
        (6800, 2300)
    } else if fu == 90 && han == 1 {
        (4400, 1500)
    } else if fu == 90 && han == 2 {
        (8700, 2900)
    } else if fu == 110 && han == 1 {
        (5300, 1800)
    } else if fu == 110 && han == 2 {
        (10600, 3600)
    } else if han == 5 || (fu >= 40 && han == 4) || (fu >= 70 && han == 3) {
        (12000, 4000)
    } else if 6 <= han && han <= 7 {
        (18000, 6000)
    } else if 8 <= han && han <= 10 {
        (24000, 8000)
    } else if 11 <= han && han <= 12 {
        (36000, 12000)
    } else {
        (48000, 16000)
    }
}

/// Whether the payout table lists the fu/han pair (see `valid_fu_han`).
pub fn is_valid_fu_han(fu: u8, han: u8) -> (b: bool)
    ensures
        b == valid_fu_han(fu as int, han as int),
{
    if han >= 5 {
        true
    } else if han == 4 {
        fu == 20 || fu == 25 || fu == 30 || fu >= 40
    } else if han == 3 {
        fu == 20 || fu == 25 || fu == 30 || fu == 40 || fu == 50 || fu == 60 || fu >= 70
    } else if han == 2 {
        fu == 20 || fu == 25 || fu == 30 || fu == 40 || fu == 50 || fu == 60 || fu == 70 || fu == 80 || fu == 90
            || fu == 100 || fu == 110
    } else if han == 1 {
        fu == 30 || fu == 40 || fu == 50 || fu == 60 || fu == 70 || fu == 80 || fu == 90 || fu == 100 || fu == 110
    } else {
        false
    }
}

impl Payout {
    /// Looks the payout up in the fixed table. Every entry equals the base
    /// points formula rounded up to 100 (the table's consistency law).
    pub fn lookup(is_dealer: bool, fu: u8, han: u8) -> (p: Self)
        requires
            valid_fu_han(fu as int, han as int),
        ensures
            p == payout_formula(is_dealer, fu as int, han as int),
    {
        if is_dealer {
            let (ron, tsumo_non_dealer) = dealer_row(fu, han);
            Payout { ron, tsumo_non_dealer, tsumo_dealer: 0 }
        } else {
            let (ron, tsumo_non_dealer, tsumo_dealer) = non_dealer_row(fu, han);
            Payout { ron, tsumo_non_dealer, tsumo_dealer }
        }
    }

    /// The payout of `count` yakuman.
    pub fn yakuman(is_dealer: bool, count: i32) -> (p: Self)
        requires
            i32::MIN <= (if is_dealer {
                48000int
            } else {
                32000int
            }) * count <= i32::MAX,
        ensures
            p == yakuman_formula(is_dealer, count as int),
    {
        if is_dealer {
            Payout { ron: 48000 * count, tsumo_non_dealer: 16000 * count, tsumo_dealer: 0 }
        } else {
            Payout {
                ron: 32000 * count,
                tsumo_non_dealer: 8000 * count,
                tsumo_dealer: 16000 * count,
            }
        }
    }

    /// What the winner collects in total on tsumo.
    pub fn tsumo_total(self, is_dealer: bool) -> (t: i32)
        requires
            i32::MIN <= tsumo_total_spec(self, is_dealer) <= i32::MAX,
            i32::MIN <= self.tsumo_non_dealer * 3 <= i32::MAX,
            i32::MIN <= self.tsumo_non_dealer * 2 <= i32::MAX,
        ensures
            t == tsumo_total_spec(self, is_dealer),
    {
        if is_dealer {
            self.tsumo_non_dealer * 3
        } else {
            self.tsumo_non_dealer * 2 + self.tsumo_dealer
        }
    }
}

/// More han never pays less: at a given fu, the base points, and so every
/// payment of the table, grow with the han.
pub proof fn lemma_more_han_never_pays_less(fu: int, han: int, mult: int)
    requires
        0 <= fu,
        1 <= han,
        0 < mult,
    ensures
        table_base(fu, han) <= table_base(fu, han + 1),
        table_points(fu, han, mult) <= table_points(fu, han + 1, mult),
{
    if han <= 4 {
        vstd::arithmetic::power2::lemma_pow2_unfold((3 + han) as nat);
        vstd::arithmetic::power2::lemma_pow2_pos((2 + han) as nat);
        let p = vstd::arithmetic::power2::pow2((2 + han) as nat);
        assert(fu * p <= fu * (2 * p)) by (nonlinear_arith)
            requires
                0 <= fu,
                0 < p,
        ;
        assert(fu * (2 * p) == fu * vstd::arithmetic::power2::pow2((3 + han) as nat));
    }
    let b1 = table_base(fu, han);
    let b2 = table_base(fu, han + 1);
    assert(b1 * mult + 99 <= b2 * mult + 99) by (nonlinear_arith)
        requires
            b1 <= b2,
            0 < mult,
    ;
    vstd::arithmetic::div_mod::lemma_div_is_ordered(b1 * mult + 99, b2 * mult + 99, 100);
}

/// For yakuman, whose payments are whole thousands, the three tsumo
/// payments add up to exactly the ron value, within the range that the
/// payout can hold.
pub proof fn lemma_yakuman_tsumo_equals_ron(is_dealer: bool, count: int)
    requires
        i32::MIN <= (if is_dealer {
            48000int
        } else {
            32000int
        }) * count <= i32::MAX,
    ensures
        tsumo_total_spec(yakuman_formula(is_dealer, count), is_dealer) == yakuman_formula(is_dealer, count).ron,
{
}

/// From five han on the table pays whole limits, so the three tsumo
/// payments add up to exactly the ron value.
pub proof fn lemma_limit_tsumo_equals_ron(is_dealer: bool, fu: int, han: int)
    requires
        han >= 5,
    ensures
        tsumo_total_spec(payout_formula(is_dealer, fu, han), is_dealer) == payout_formula(is_dealer, fu, han).ron,
{
}

} // verus!
