use vstd::prelude::*;

verus! {

/// Base points of a non-yakuman hand: fu × 2^(han+2) capped at mangan for
/// one to four han, then the fixed limit values.
pub open spec fn base_points_spec(han: int, fu: int) -> int {
    if han == 0 {
        0
    } else if han <= 4 {
        let raw = fu * vstd::arithmetic::power2::pow2((han + 2) as nat);
        if raw < 2000 {
            raw
        } else {
            2000
        }
    } else if han == 5 {
        2000
    } else if han <= 7 {
        3000
    } else if han <= 10 {
        4000
    } else if han <= 12 {
        6000
    } else {
        8000
    }
}

/// `n` rounded up to a multiple of 100.
pub open spec fn round_up_100_spec(n: int) -> int {
    (n + 99) / 100 * 100
}

/// Base points of the win: 8000 per yakuman, else by han and fu.
pub open spec fn win_base(han: int, fu: int, yakuman_count: int) -> int {
    if yakuman_count > 0 {
        8000 * yakuman_count
    } else {
        base_points_spec(han, fu)
    }
}

/// What a ron costs the discarder: six (dealer) or four times the base
/// points rounded up, plus 300 per honba.
pub open spec fn ron_payment(base: int, winner_is_dealer: bool, honba: int) -> int {
    round_up_100_spec(base * (if winner_is_dealer {
        6int
    } else {
        4int
    })) + honba * 300
}

/// What one opponent pays on tsumo: twice the base points when the dealer
/// wins or pays, once otherwise, rounded up, plus 100 per honba.
pub open spec fn tsumo_payment(base: int, payer_or_winner_is_dealer: bool, honba: int) -> int {
    round_up_100_spec(base * (if payer_or_winner_is_dealer {
        2int
    } else {
        1int
    })) + honba * 100
}

/// The point change of seat `seat` after a win.
pub open spec fn point_change(
    han: int,
    fu: int,
    yakuman_count: int,
    winner: int,
    loser: Option<usize>,
    dealer: int,
    riichi_sticks: int,
    honba: int,
    is_tsumo: bool,
    seat: int,
) -> int {
    let base = win_base(han, fu, yakuman_count);
    let winner_is_dealer = winner == dealer;
    let bonus = riichi_sticks * 1000;
    if is_tsumo {
        if seat == winner {
            if winner_is_dealer {
                3 * tsumo_payment(base, true, honba) + bonus
            } else {
                tsumo_payment(base, true, honba) + 2 * tsumo_payment(base, false, honba) + bonus
            }
        } else {
            -tsumo_payment(base, winner_is_dealer || seat == dealer, honba)
        }
    } else {
        let pay = ron_payment(base, winner_is_dealer, honba);
        if seat == winner {
            pay + bonus
        } else if loser == Some(seat as usize) && 0 <= seat < 4 {
            -pay
        } else {
            0
        }
    }
}

/// The largest sum that the settlement computes, for the overflow bound.
pub open spec fn settlement_fits(
    han: int,
    fu: int,
    yakuman_count: int,
    riichi_sticks: int,
    honba: int,
) -> bool {
    &&& (yakuman_count == 0 && 1 <= han <= 4) ==> fu * 64 <= i32::MAX
    &&& riichi_sticks * 1000 <= i32::MAX
    &&& honba * 300 <= i32::MAX
    &&& 6 * win_base(han, fu, yakuman_count) + 300 + honba * 300 + riichi_sticks * 1000
        <= i32::MAX
}

proof fn lemma_pow2_small(han: int)
    requires
        1 <= han <= 4,
    ensures
        vstd::arithmetic::power2::pow2((han + 2) as nat) == (if han == 1 {
            8int
        } else if han == 2 {
            16int
        } else if han == 3 {
            32int
        } else {
            64int
        }),
{
    vstd::arithmetic::power2::lemma2_to64();
}

/// Base points `bp = fu × 2^(han+2)`, with the fixed values from mangan up.
fn base_points(han: u8, fu: u32) -> (bp: i32)
    requires
        1 <= han <= 4 ==> fu * 64 <= i32::MAX,
    ensures
        bp == base_points_spec(han as int, fu as int),
        0 <= bp <= 8000,
{
    if han == 0 {
        0
    } else if han <= 4 {
        proof {
            lemma_pow2_small(han as int);
        }
        let mult: i32 = if han == 1 {
            8
        } else if han == 2 {
            16
        } else if han == 3 {
            32
        } else {
            64
        };
        let raw = fu as i32 * mult;
        if raw < 2000 {
            raw
        } else {
            2000
        }
    } else if han == 5 {
        2000
    } else if han <= 7 {
        3000
    } else if han <= 10 {
        4000
    } else if han <= 12 {
        6000
    } else {
        8000
    }
}

/// Rounds up to a multiple of 100.
fn round_up_100(n: i32) -> (r: i32)
    requires
        0 <= n <= i32::MAX - 99,
    ensures
        r == round_up_100_spec(n as int),
        n <= r < n + 100,
{
    ((n + 99) / 100) * 100
}

/// Point changes of the four seats after a win, with no discarder charged
/// on ron (see `calculate_points_with_loser`).
pub fn calculate_points(
    total_han: u8,
    total_fu: u32,
    yakuman_count: u8,
    winner: usize,
    dealer: usize,
    riichi_sticks: u32,
    honba: u32,
    is_tsumo: bool,
) -> (changes: [i32; 4])
    requires
        winner < 4,
        settlement_fits(
            total_han as int,
            total_fu as int,
            yakuman_count as int,
            riichi_sticks as int,
            honba as int,
        ),
    ensures
        forall|seat: int|
            0 <= seat < 4 ==> changes[seat] == point_change(
                total_han as int,
                total_fu as int,
                yakuman_count as int,
                winner as int,
                None,
                dealer as int,
                riichi_sticks as int,
                honba as int,
                is_tsumo,
                seat,
            ),
{
    calculate_points_with_loser(
        total_han,
        total_fu,
        yakuman_count,
        winner,
        None,
        dealer,
        riichi_sticks,
        honba,
        is_tsumo,
    )
}

/// Point changes of the four seats after a win. On tsumo the three others
/// pay (the dealer, or everyone when the dealer wins, pays double); on ron
/// `loser` pays, if it is a seat other than the winner. Honba add 300 per
/// win, riichi sticks on the table go to the winner.
pub fn calculate_points_with_loser(
    total_han: u8,
    total_fu: u32,
    yakuman_count: u8,
    winner: usize,
    loser: Option<usize>,
    dealer: usize,
    riichi_sticks: u32,
    honba: u32,
    is_tsumo: bool,
) -> (changes: [i32; 4])
    requires
        winner < 4,
        settlement_fits(
            total_han as int,
            total_fu as int,
            yakuman_count as int,
            riichi_sticks as int,
            honba as int,
        ),
    ensures
        forall|seat: int|
            0 <= seat < 4 ==> changes[seat] == point_change(
                total_han as int,
                total_fu as int,
                yakuman_count as int,
                winner as int,
                loser,
                dealer as int,
                riichi_sticks as int,
                honba as int,
                is_tsumo,
                seat,
            ),
{
    let honba_val = (honba * 100) as i32;
    let riichi_bonus = (riichi_sticks * 1000) as i32;
    let is_dealer = winner == dealer;
    let bp = if yakuman_count > 0 {
        8000 * yakuman_count as i32
    } else {
        base_points(total_han, total_fu)
    };
    let ghost base = win_base(total_han as int, total_fu as int, yakuman_count as int);
    assert(bp == base);
    assert(0 <= bp <= 8000 * 255);
    let mut changes = [0i32; 4];
    if is_tsumo {
        if is_dealer {
            let each_pay = round_up_100(bp * 2) + honba_val;
            let mut i: usize = 0;
            while i < 4
                invariant
                    i <= 4,
                    winner < 4,
                    is_tsumo,
                    is_dealer,
                    is_dealer == (winner == dealer),
                    base == win_base(total_han as int, total_fu as int, yakuman_count as int),
                    each_pay == tsumo_payment(base, true, honba as int),
                    0 <= each_pay,
                    0 <= riichi_bonus,
                    riichi_bonus == riichi_sticks * 1000,
                    3 * each_pay + riichi_bonus <= i32::MAX,
                    bp == base,
                    forall|seat: int|
                        0 <= seat < i ==> changes[seat] == point_change(
                            total_han as int,
                            total_fu as int,
                            yakuman_count as int,
                            winner as int,
                            loser,
                            dealer as int,
                            riichi_sticks as int,
                            honba as int,
                            is_tsumo,
                            seat,
                        ),
                decreases 4 - i,
            {
                if i == winner {
                    changes[i] = each_pay * 3 + riichi_bonus;
                } else {
                    changes[i] = -each_pay;
                }
                i += 1;
            }
        } else {
            let dealer_pay = round_up_100(bp * 2) + honba_val;
            let other_pay = round_up_100(bp) + honba_val;
            let mut i: usize = 0;
            while i < 4
                invariant
                    i <= 4,
                    winner < 4,
                    is_tsumo,
                    !is_dealer,
                    is_dealer == (winner == dealer),
                    base == win_base(total_han as int, total_fu as int, yakuman_count as int),
                    dealer_pay == tsumo_payment(base, true, honba as int),
                    0 <= riichi_bonus,
                    other_pay == tsumo_payment(base, false, honba as int),
                    riichi_bonus == riichi_sticks * 1000,
                    dealer_pay + 2 * other_pay + riichi_bonus <= i32::MAX,
                    0 <= other_pay <= dealer_pay,
                    forall|seat: int|
                        0 <= seat < i ==> changes[seat] == point_change(
                            total_han as int,
                            total_fu as int,
                            yakuman_count as int,
                            winner as int,
                            loser,
                            dealer as int,
                            riichi_sticks as int,
                            honba as int,
                            is_tsumo,
                            seat,
                        ),
                decreases 4 - i,
            {
                if i == winner {
                    changes[i] = dealer_pay + other_pay * 2 + riichi_bonus;
                } else if i == dealer {
                    changes[i] = -dealer_pay;
                } else {
                    changes[i] = -other_pay;
                }
                i += 1;
            }
        }
    } else {
        let hand_pay = if is_dealer {
            round_up_100(bp * 6)
        } else {
            round_up_100(bp * 4)
        };
        let pay = hand_pay + (honba * 300) as i32;
        changes[winner] = pay + riichi_bonus;
        if let Some(loser) = loser {
            if loser < 4 && loser != winner {
                changes[loser] = changes[loser] - pay;
            }
        }
    }
    changes
}

/// The four changes add up to the riichi sticks taken from the table when
/// every payer is charged: on tsumo, and on ron with a discarder other than
/// the winner.
pub proof fn lemma_settlement_is_zero_sum(
    han: int,
    fu: int,
    yakuman_count: int,
    winner: int,
    loser: Option<usize>,
    dealer: int,
    riichi_sticks: int,
    honba: int,
    is_tsumo: bool,
)
    requires
        0 <= winner < 4,
        0 <= dealer < 4,
        is_tsumo || (loser matches Some(l) && l < 4 && l != winner),
    ensures
        point_change(han, fu, yakuman_count, winner, loser, dealer, riichi_sticks, honba, is_tsumo, 0)
            + point_change(han, fu, yakuman_count, winner, loser, dealer, riichi_sticks, honba, is_tsumo, 1)
            + point_change(han, fu, yakuman_count, winner, loser, dealer, riichi_sticks, honba, is_tsumo, 2)
            + point_change(han, fu, yakuman_count, winner, loser, dealer, riichi_sticks, honba, is_tsumo, 3)
            == riichi_sticks * 1000,
{
}

/// The winner never loses points and no other seat gains any.
pub proof fn lemma_only_the_winner_gains(
    han: int,
    fu: int,
    yakuman_count: int,
    winner: int,
    loser: Option<usize>,
    dealer: int,
    riichi_sticks: int,
    honba: int,
    is_tsumo: bool,
    seat: int,
)
    requires
        0 <= winner < 4,
        0 <= seat < 4,
        0 <= han <= 255,
        0 <= fu,
        0 <= yakuman_count,
        0 <= riichi_sticks,
        0 <= honba,
    ensures
        seat == winner ==> point_change(
            han,
            fu,
            yakuman_count,
            winner,
            loser,
            dealer,
            riichi_sticks,
            honba,
            is_tsumo,
            seat,
        ) >= 0,
        seat != winner ==> point_change(
            han,
            fu,
            yakuman_count,
            winner,
            loser,
            dealer,
            riichi_sticks,
            honba,
            is_tsumo,
            seat,
        ) <= 0,
{
    let base = win_base(han, fu, yakuman_count);
    if yakuman_count == 0 && 1 <= han <= 4 {
        lemma_pow2_small(han);
    }
    assert(base >= 0) by (nonlinear_arith)
        requires
            base == win_base(han, fu, yakuman_count),
            yakuman_count == 0 && 1 <= han <= 4 ==> vstd::arithmetic::power2::pow2((han + 2) as nat) >= 8,
            0 <= fu,
            0 <= yakuman_count,
    ;
}

/// A ron settled with no discarder charged changes only the winner's
/// points: the result of `calculate_points` on ron.
pub proof fn lemma_ron_without_discarder(
    han: int,
    fu: int,
    yakuman_count: int,
    winner: int,
    dealer: int,
    riichi_sticks: int,
    honba: int,
    seat: int,
)
    requires
        0 <= seat < 4,
        seat != winner,
    ensures
        point_change(han, fu, yakuman_count, winner, None, dealer, riichi_sticks, honba, false, seat) == 0,
{
}

/// The base points of a settlement agree with the payout table: for every
/// han from one up, fu × 2^(han+2) capped at 2000 below five han, then
/// 2000 (mangan, 5), 3000 (haneman, 6-7), 4000 (baiman, 8-10), 6000
/// (sanbaiman, 11-12) and 8000 (counted yakuman, 13 and more).
pub proof fn lemma_base_points_follow_the_table(han: int, fu: int)
    requires
        han >= 1,
    ensures
        base_points_spec(han, fu) == crate::point::table_base(fu, han),
        han == 5 ==> base_points_spec(han, fu) == 2000,
        6 <= han <= 7 ==> base_points_spec(han, fu) == 3000,
        8 <= han <= 10 ==> base_points_spec(han, fu) == 4000,
        11 <= han <= 12 ==> base_points_spec(han, fu) == 6000,
        han >= 13 ==> base_points_spec(han, fu) == 8000,
{
    assert((han + 2) as nat == (2 + han) as nat);
}

/// A limit hand of five to twelve han won by ron, with no honba and no
/// riichi sticks on the table, moves four times its limit value (six times
/// for the dealer) from the discarder to the winner: a non-dealer's
/// haneman is 12000, a dealer's 18000.
pub proof fn lemma_limit_ron_settlement(
    han: int,
    fu: int,
    winner: int,
    loser: usize,
    dealer: int,
)
    requires
        5 <= han <= 12,
        0 <= winner < 4,
        loser < 4,
        loser != winner,
    ensures
        ({
            let limit = if han == 5 {
                2000int
            } else if han <= 7 {
                3000int
            } else if han <= 10 {
                4000int
            } else {
                6000int
            };
            let total = if winner == dealer {
                6 * limit
            } else {
                4 * limit
            };
            &&& point_change(han, fu, 0, winner, Some(loser), dealer, 0, 0, false, winner) == total
            &&& point_change(han, fu, 0, winner, Some(loser), dealer, 0, 0, false, loser as int)
                == -total
        }),
{
    lemma_base_points_follow_the_table(han, fu);
    let base = win_base(han, fu, 0);
    assert(base * 4 % 100 == 0 && base * 6 % 100 == 0);
    assert(round_up_100_spec(base * 4) == base * 4);
    assert(round_up_100_spec(base * 6) == base * 6);
    assert((loser as int) as usize == loser);
}

} // verus!
