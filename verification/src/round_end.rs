use vstd::prelude::*;
use crate::declaration::{get_waiting_tiles, waiting_kinds};
use crate::shanten::orphan_kind;
use crate::tile::{Tile, TileType};

verus! {

/// Seat `a` places above seat `b`: more points, or equal points and the
/// lower seat.
pub open spec fn ranks_before(points: Seq<i32>, a: int, b: int) -> bool {
    points[a] > points[b] || (points[a] == points[b] && a < b)
}

/// Seat `s` has a place.
pub open spec fn placed(r: Seq<usize>, s: int) -> bool {
    exists|i: int| 0 <= i < r.len() && #[trigger] r[i] == s
}

/// The final placings: every seat once, in placing order.
pub open spec fn is_ranking(points: Seq<i32>, r: Seq<usize>) -> bool {
    &&& r.len() == 4
    &&& forall|i: int| 0 <= i < 4 ==> (#[trigger] r[i]) < 4
    &&& forall|s: int| 0 <= s < 4 ==> #[trigger] placed(r, s)
    &&& forall|i: int, j: int|
        0 <= i < j < 4 ==> ranks_before(points, #[trigger] r[i] as int, #[trigger] r[j] as int)
}

/// The final placings: more points first, the lower seat first on equal
/// points.
pub fn final_ranking(points: [i32; 4]) -> (r: [usize; 4])
    ensures
        is_ranking(points@, r@),
{
    let mut v: Vec<usize> = Vec::new();
    let mut s: usize = 0;
    while s < 4
        invariant
            s <= 4,
            v@.len() == s,
            forall|i: int| 0 <= i < v@.len() ==> (#[trigger] v@[i]) < s,
            forall|t: int| 0 <= t < s ==> #[trigger] placed(v@, t),
            forall|i: int, j: int|
                0 <= i < j < v@.len() ==> ranks_before(points@, #[trigger] v@[i] as int, #[trigger] v@[j] as int),
        decreases 4 - s,
    {
        let mut k: usize = 0;
        while k < v.len() && !(points[s] > points[v[k]] || (points[s] == points[v[k]] && s < v[k]))
            invariant
                k <= v@.len(),
                s < 4,
                forall|i: int| 0 <= i < v@.len() ==> (#[trigger] v@[i]) < s,
                forall|i: int| 0 <= i < k ==> !ranks_before(points@, s as int, #[trigger] v@[i] as int),
            decreases v@.len() - k,
        {
            k += 1;
        }
        let ghost old_v = v@;
        assert forall|i: int| 0 <= i < k implies ranks_before(points@, #[trigger] old_v[i] as int, s as int) by {
            assert(!ranks_before(points@, s as int, old_v[i] as int));
            assert(old_v[i] != s);
        }
        if k < v.len() {
            assert forall|j: int| k <= j < old_v.len() implies ranks_before(points@, s as int, #[trigger] old_v[j] as int) by {
                if j > k {
                    assert(ranks_before(points@, old_v[k as int] as int, old_v[j] as int));
                }
            }
        }
        v.insert(k, s);
        assert forall|t: int| 0 <= t < s + 1 implies #[trigger] placed(v@, t) by {
            if t == s {
                assert(v@[k as int] == s);
            } else {
                assert(placed(old_v, t));
                let i = choose|i: int| 0 <= i < old_v.len() && #[trigger] old_v[i] == t;
                if i < k {
                    assert(v@[i] == t);
                } else {
                    assert(v@[i + 1] == t);
                }
            }
        }
        assert forall|i: int, j: int| 0 <= i < j < v@.len() implies ranks_before(
            points@,
            #[trigger] v@[i] as int,
            #[trigger] v@[j] as int,
        ) by {
            if i < k && j < k {
                assert(v@[i] == old_v[i] && v@[j] == old_v[j]);
            } else if i < k && j == k {
            } else if i < k {
                assert(v@[i] == old_v[i] && v@[j] == old_v[j - 1]);
                assert(ranks_before(points@, old_v[i] as int, s as int));
            } else if i == k {
                assert(v@[j] == old_v[j - 1]);
            } else {
                assert(v@[i] == old_v[i - 1] && v@[j] == old_v[j - 1]);
            }
        }
        s += 1;
    }
    let r = [v[0], v[1], v[2], v[3]];
    assert(r@ =~= v@);
    r
}

/// The number of seats in tenpai.
pub open spec fn tenpai_count(tenpai: Seq<bool>) -> int {
    (if tenpai[0] {
        1int
    } else {
        0
    }) + (if tenpai[1] {
        1int
    } else {
        0
    }) + (if tenpai[2] {
        1int
    } else {
        0
    }) + (if tenpai[3] {
        1int
    } else {
        0
    })
}

/// What each seat out of tenpai pays at an exhaustive draw with `n` seats
/// in tenpai: 1000 with one, 1500 with two, 3000 with three; nothing when
/// none or all are in tenpai.
pub open spec fn noten_payment(n: int) -> int {
    if n == 1 {
        1000
    } else if n == 2 {
        1500
    } else if n == 3 {
        3000
    } else {
        0
    }
}

/// What each seat in tenpai receives: 3000, 1500 or 1000.
pub open spec fn tenpai_receipt(n: int) -> int {
    if n == 1 {
        3000
    } else if n == 2 {
        1500
    } else if n == 3 {
        1000
    } else {
        0
    }
}

/// What seat `p` pays a nagashi mangan by seat `w`: 4000 when either is
/// the dealer, else 2000.
pub open spec fn nagashi_payment(w: int, p: int, dealer: int) -> int {
    if w == dealer || p == dealer {
        4000
    } else {
        2000
    }
}

/// The point change of `seat` at an exhaustive draw: a single nagashi
/// mangan is paid as a mangan tsumo; otherwise the seats out of tenpai pay
/// the seats in tenpai.
pub open spec fn draw_payment(tenpai: Seq<bool>, nagashi: Option<usize>, dealer: int, seat: int) -> int {
    match nagashi {
        Some(w) => if seat == w {
            if w == dealer {
                12000
            } else {
                8000
            }
        } else {
            -nagashi_payment(w as int, seat, dealer)
        },
        None => if tenpai[seat] {
            tenpai_receipt(tenpai_count(tenpai))
        } else {
            -noten_payment(tenpai_count(tenpai))
        },
    }
}

/// The point changes of an exhaustive draw (see `draw_payment`).
pub fn exhaustive_draw_payments(tenpai: [bool; 4], nagashi_winner: Option<usize>, dealer: usize) -> (p: [i32; 4])
    requires
        dealer < 4,
        nagashi_winner matches Some(w) ==> w < 4,
    ensures
        forall|seat: int| 0 <= seat < 4 ==> p[seat] == draw_payment(tenpai@, nagashi_winner, dealer as int, seat),
{
    let mut payments = [0i32; 4];
    match nagashi_winner {
        Some(w) => {
            let mut seat: usize = 0;
            while seat < 4
                invariant
                    seat <= 4,
                    w < 4,
                    dealer < 4,
                    forall|x: int| 0 <= x < seat ==> payments[x] == draw_payment(tenpai@, nagashi_winner, dealer as int, x),
                    nagashi_winner == Some(w),
                decreases 4 - seat,
            {
                payments[seat] = if seat == w {
                    if w == dealer {
                        12000
                    } else {
                        8000
                    }
                } else if w == dealer || seat == dealer {
                    -4000
                } else {
                    -2000
                };
                seat += 1;
            }
        },
        None => {
            let n = (if tenpai[0] { 1u8 } else { 0 }) + (if tenpai[1] { 1u8 } else { 0 }) + (if tenpai[2] { 1u8 } else { 0 })
                + (if tenpai[3] { 1u8 } else { 0 });
            let (pay, receive): (i32, i32) = if n == 1 {
                (1000, 3000)
            } else if n == 2 {
                (1500, 1500)
            } else if n == 3 {
                (3000, 1000)
            } else {
                (0, 0)
            };
            let mut seat: usize = 0;
            while seat < 4
                invariant
                    seat <= 4,
                    n == tenpai_count(tenpai@),
                    pay == noten_payment(n as int),
                    receive == tenpai_receipt(n as int),
                    nagashi_winner is None,
                    forall|x: int| 0 <= x < seat ==> payments[x] == draw_payment(tenpai@, nagashi_winner, dealer as int, x),
                decreases 4 - seat,
            {
                payments[seat] = if tenpai[seat] {
                    receive
                } else {
                    -pay
                };
                seat += 1;
            }
        },
    }
    payments
}

/// An exhaustive draw moves no points in or out of the table, and a seat
/// in tenpai never pays (without a nagashi mangan).
pub proof fn lemma_draw_payments_are_zero_sum(tenpai: Seq<bool>, nagashi: Option<usize>, dealer: int)
    requires
        tenpai.len() == 4,
        0 <= dealer < 4,
        nagashi matches Some(w) ==> w < 4,
    ensures
        draw_payment(tenpai, nagashi, dealer, 0) + draw_payment(tenpai, nagashi, dealer, 1) + draw_payment(
            tenpai,
            nagashi,
            dealer,
            2,
        ) + draw_payment(tenpai, nagashi, dealer, 3) == 0,
        nagashi is None ==> forall|s: int| 0 <= s < 4 && #[trigger] tenpai[s] ==> draw_payment(tenpai, nagashi, dealer, s) >= 0,
{
}

/// How a round ended.
#[derive(Debug, Clone, PartialEq, Eq)]
pub enum RoundEnd {
    Win { winner: usize, is_tsumo: bool },
    MultiWin { winners: Vec<usize> },
    ExhaustiveDraw,
    KyuushuKyuuhai,
    SuufonRenda,
    SuuchaRiichi,
    SuuKantsu,
}

/// The dealer of a round: rounds count from 1, the dealer seat moves on
/// each round.
pub open spec fn dealer_spec(round: u32) -> int {
    if round == 0 {
        0
    } else {
        (round - 1) % 4
    }
}

pub fn dealer_of(round: u32) -> (d: usize)
    ensures
        d == dealer_spec(round),
        d < 4,
{
    (round.saturating_sub(1) % 4) as usize
}

/// The seat wind of `seat` in a round dealt by `dealer`: East for the
/// dealer, then South, West and North in turn order.
pub open spec fn seat_wind_spec(seat: int, dealer: int) -> TileType {
    TileType((27 + (seat + 4 - dealer) % 4) as u8)
}

pub fn seat_wind(seat: usize, dealer: usize) -> (w: TileType)
    requires
        seat < 4,
        dealer < 4,
    ensures
        w == seat_wind_spec(seat as int, dealer as int),
{
    TileType((27 + (seat + 4 - dealer) % 4) as u8)
}

/// The four seats get the four winds, one each, and the dealer sits East.
pub proof fn lemma_seat_winds_are_distinct(dealer: int, a: int, b: int)
    requires
        0 <= dealer < 4,
        0 <= a < 4,
        0 <= b < 4,
    ensures
        seat_wind_spec(a, dealer) == seat_wind_spec(b, dealer) <==> a == b,
        seat_wind_spec(dealer, dealer) == TileType(27),
        seat_wind_spec(a, dealer).spec_is_wind(),
{
}

/// The dealer keeps the seat after winning (alone or with others), after
/// an exhaustive draw in tenpai, and after every abortive draw.
pub open spec fn dealer_continues_spec(reason: RoundEnd, dealer: int, dealer_tenpai: bool) -> bool {
    match reason {
        RoundEnd::Win { winner, .. } => winner == dealer,
        RoundEnd::MultiWin { winners } => winners@.contains(dealer as usize),
        RoundEnd::ExhaustiveDraw => dealer_tenpai,
        _ => true,
    }
}

#[verifier::loop_isolation(false)]
pub fn dealer_continues(reason: &RoundEnd, dealer: usize, dealer_tenpai: bool) -> (b: bool)
    ensures
        b == dealer_continues_spec(*reason, dealer as int, dealer_tenpai),
{
    match reason {
        RoundEnd::Win { winner, .. } => *winner == dealer,
        RoundEnd::MultiWin { winners } => {
            let mut i: usize = 0;
            while i < winners.len()
                invariant
                    i <= winners@.len(),
                    forall|j: int| 0 <= j < i ==> winners@[j] != dealer,
                decreases winners@.len() - i,
            {
                if winners[i] == dealer {
                    assert(winners@[i as int] == dealer);
                    assert(winners@.contains(dealer));
                    return true;
                }
                i += 1;
            }
            false
        },
        RoundEnd::ExhaustiveDraw => dealer_tenpai,
        _ => true,
    }
}

/// Round, honba and round wind.
#[derive(Debug, Clone, Copy, PartialEq, Eq, Structural)]
pub struct RoundState {
    pub round: u32,
    pub honba: u32,
    pub wind: TileType,
}

/// The next round: the dealer keeps the seat with one more honba, or the
/// seat moves on with the honba cleared; rounds 1-4 are East, later ones
/// South.
pub open spec fn advance_spec(s: RoundState, dealer_continues: bool) -> RoundState {
    if dealer_continues {
        RoundState { honba: (s.honba + 1) as u32, ..s }
    } else {
        RoundState {
            round: (s.round + 1) as u32,
            honba: 0,
            wind: if s.round + 1 <= 4 {
                TileType(27)
            } else {
                TileType(28)
            },
        }
    }
}

pub fn advance_round(s: RoundState, dealer_continues: bool) -> (r: RoundState)
    requires
        s.honba < u32::MAX,
        s.round < u32::MAX,
    ensures
        r == advance_spec(s, dealer_continues),
{
    if dealer_continues {
        RoundState { honba: s.honba + 1, ..s }
    } else {
        let round = s.round + 1;
        RoundState {
            round,
            honba: 0,
            wind: if round <= 4 {
                TileType(27)
            } else {
                TileType(28)
            },
        }
    }
}

/// The dealer ends the half game in South 4: it kept the seat, holds at
/// least 30000 points and is first.
pub open spec fn agari_yame_spec(round: u32, round_over: bool, dealer_kept_seat: bool, points: Seq<i32>) -> bool {
    let d = dealer_spec(round);
    &&& round == 8
    &&& round_over
    &&& dealer_kept_seat
    &&& points[d] >= 30000
    &&& forall|s: int| 0 <= s < 4 && s != d ==> ranks_before(points, d, s)
}

pub fn is_agari_yame(round: u32, round_over: bool, dealer_kept_seat: bool, points: [i32; 4]) -> (b: bool)
    ensures
        b == agari_yame_spec(round, round_over, dealer_kept_seat, points@),
{
    if round != 8 || !round_over || !dealer_kept_seat {
        return false;
    }
    let d = dealer_of(round);
    if points[d] < 30000 {
        return false;
    }
    let ranking = final_ranking(points);
    proof {
        let r = ranking@;
        if r[0] == d {
            assert forall|s: int| 0 <= s < 4 && s != d implies ranks_before(points@, d as int, s) by {
                assert(placed(r, s));
                let i = choose|i: int| 0 <= i < 4 && #[trigger] r[i] == s;
                assert(i != 0);
                assert(ranks_before(points@, r[0] as int, r[i] as int));
            }
        } else {
            assert(placed(r, d as int));
            let i = choose|i: int| 0 <= i < 4 && #[trigger] r[i] == d;
            assert(i != 0);
            assert(ranks_before(points@, r[0] as int, r[i] as int));
            assert(!ranks_before(points@, d as int, r[0] as int));
        }
    }
    ranking[0] == d
}

/// The half game is over after South 4, on a negative score when busting
/// ends the game, or when the dealer stops in South 4.
pub open spec fn game_over_spec(round: u32, tobi: bool, points: Seq<i32>, is_agari_yame: bool) -> bool {
    round > 8 || (tobi && exists|s: int| 0 <= s < 4 && #[trigger] points[s] < 0) || is_agari_yame
}

pub fn is_game_over(round: u32, tobi: bool, points: [i32; 4], is_agari_yame: bool) -> (b: bool)
    ensures
        b == game_over_spec(round, tobi, points@, is_agari_yame),
{
    let busted = points[0] < 0 || points[1] < 0 || points[2] < 0 || points[3] < 0;
    proof {
        if busted {
            if points[0] < 0 {
                assert(points@[0] < 0);
            } else if points[1] < 0 {
                assert(points@[1] < 0);
            } else if points[2] < 0 {
                assert(points@[2] < 0);
            } else {
                assert(points@[3] < 0);
            }
        }
    }
    round > 8 || (tobi && busted) || is_agari_yame
}

/// At the end of the game the riichi sticks left on the table go to the
/// first-placed seat.
pub fn award_leftover_sticks(points: [i32; 4], riichi_sticks: u32) -> (r: [i32; 4])
    requires
        riichi_sticks * 1000 <= i32::MAX,
        forall|s: int| 0 <= s < 4 ==> points[s] + riichi_sticks * 1000 <= i32::MAX,
    ensures
        ({
            let top = final_ranking_top(points@);
            forall|s: int| 0 <= s < 4 ==> r[s] == if s == top {
                points[s] + riichi_sticks * 1000
            } else {
                points[s] as int
            }
        }),
{
    let ranking = final_ranking(points);
    let top = ranking[0];
    proof {
        lemma_ranking_top(points@, ranking@);
    }
    let mut r = points;
    r[top] = points[top] + (riichi_sticks * 1000) as i32;
    r
}

/// Seat `t` places above every other seat.
pub open spec fn is_top(points: Seq<i32>, t: int) -> bool {
    forall|s: int| 0 <= s < 4 && s != t ==> #[trigger] ranks_before(points, t, s)
}

/// The first-placed seat.
pub open spec fn final_ranking_top(points: Seq<i32>) -> int {
    choose|t: int| 0 <= t < 4 && #[trigger] is_top(points, t)
}

proof fn lemma_ranking_top(points: Seq<i32>, r: Seq<usize>)
    requires
        points.len() == 4,
        is_ranking(points, r),
    ensures
        final_ranking_top(points) == r[0],
{
    let t = r[0] as int;
    assert forall|s: int| 0 <= s < 4 && s != t implies ranks_before(points, t, s) by {
        assert(placed(r, s));
        let i = choose|i: int| 0 <= i < 4 && #[trigger] r[i] == s;
        assert(i != 0);
    }
    assert(is_top(points, t));
    let c = final_ranking_top(points);
    if c != t {
        assert(ranks_before(points, c, t));
        assert(ranks_before(points, t, c));
    }
}

/// Discards that keep a nagashi mangan: at least one, all terminals and
/// honours.
pub open spec fn nagashi_discards(d: Seq<Tile>) -> bool {
    d.len() > 0 && forall|i: int| 0 <= i < d.len() ==> (#[trigger] d[i]).spec_tile_type().spec_is_yaochuuhai()
}

fn nagashi_discards_exec(d: &Vec<Tile>) -> (b: bool)
    ensures
        b == nagashi_discards(d@),
{
    if d.len() == 0 {
        return false;
    }
    let mut i: usize = 0;
    while i < d.len()
        invariant
            i <= d@.len(),
            forall|k: int| 0 <= k < i ==> (#[trigger] d@[k]).spec_tile_type().spec_is_yaochuuhai(),
        decreases d@.len() - i,
    {
        if !d[i].tile_type().is_yaochuuhai() {
            return false;
        }
        i += 1;
    }
    true
}

/// The seats below `n` that qualify for nagashi mangan, in seat order:
/// only terminal and honour discards, none of them called by another seat.
pub open spec fn nagashi_below(discards: Seq<Seq<Tile>>, called_from: Seq<bool>, n: int) -> Seq<usize>
    decreases n,
{
    if n <= 0 {
        seq![]
    } else {
        nagashi_below(discards, called_from, n - 1) + if nagashi_discards(discards[n - 1])
            && !called_from[n - 1] {
            seq![(n - 1) as usize]
        } else {
            seq![]
        }
    }
}

pub open spec fn discard_views(discards: Seq<Vec<Tile>>) -> Seq<Seq<Tile>> {
    discards.map_values(|d: Vec<Tile>| d@)
}

/// The seats that qualify for nagashi mangan (see `nagashi_below`).
pub fn get_nagashi_mangan_candidates(discards: &[Vec<Tile>; 4], called_from: [bool; 4]) -> (c: Vec<usize>)
    ensures
        c@ == nagashi_below(discard_views(discards@), called_from@, 4),
{
    let mut c: Vec<usize> = Vec::new();
    let mut p: usize = 0;
    while p < 4
        invariant
            p <= 4,
            c@ == nagashi_below(discard_views(discards@), called_from@, p as int),
        decreases 4 - p,
    {
        let d = &discards[p];
        assert(d@ == discard_views(discards@)[p as int]);
        if nagashi_discards_exec(d) && !called_from[p] {
            c.push(p);
        }
        p += 1;
    }
    c
}

/// The seat scoring a nagashi mangan: the only candidate, when the rule
/// is on; none when it is off or several seats qualify.
pub open spec fn nagashi_winner_spec(enabled: bool, candidates: Seq<usize>) -> Option<usize> {
    if enabled && candidates.len() == 1 {
        Some(candidates[0])
    } else {
        None
    }
}

/// Which seats are in tenpai: their hands wait on some kind.
pub open spec fn tenpai_seats(hands: Seq<Vec<Tile>>, open_melds: Seq<usize>) -> Seq<bool> {
    Seq::new(4, |s: int| waiting_kinds(hands[s]@, open_melds[s] as int).len() > 0)
}

/// The point changes of an exhaustive draw, from the table: the seats in
/// tenpai are those whose hands wait on some kind, the nagashi mangan goes
/// to the single qualifying seat when the rule is on (see
/// `nagashi_winner_spec`), and the changes follow `draw_payment`.
pub fn resolve_exhaustive_draw(
    hands: &[Vec<Tile>; 4],
    open_melds: [usize; 4],
    discards: &[Vec<Tile>; 4],
    called_from: [bool; 4],
    nagashi_mangan: bool,
    dealer: usize,
) -> (p: [i32; 4])
    requires
        dealer < 4,
        forall|s: int|
            0 <= s < 4 ==> (#[trigger] hands@[s])@.len() < 200 && open_melds[s] <= 4 && forall|i: int|
                0 <= i < hands@[s]@.len() ==> (#[trigger] hands@[s]@[i]).wf(),
    ensures
        forall|seat: int|
            0 <= seat < 4 ==> p[seat] == draw_payment(
                tenpai_seats(hands@, open_melds@),
                nagashi_winner_spec(nagashi_mangan, nagashi_below(discard_views(discards@), called_from@, 4)),
                dealer as int,
                seat,
            ),
{
    let candidates = get_nagashi_mangan_candidates(discards, called_from);
    let winner = if nagashi_mangan && candidates.len() == 1 {
        Some(candidates[0])
    } else {
        None
    };
    proof {
        lemma_nagashi_seats(discard_views(discards@), called_from@, 4);
    }
    let mut tenpai = [false; 4];
    let mut s: usize = 0;
    while s < 4
        invariant
            s <= 4,
            forall|x: int|
                0 <= x < 4 ==> (#[trigger] hands@[x])@.len() < 200 && open_melds[x] <= 4 && forall|i: int|
                    0 <= i < hands@[x]@.len() ==> (#[trigger] hands@[x]@[i]).wf(),
            forall|x: int| 0 <= x < s ==> tenpai[x] == tenpai_seats(hands@, open_melds@)[x],
        decreases 4 - s,
    {
        let waits = get_waiting_tiles(&hands[s], open_melds[s]);
        tenpai[s] = waits.len() > 0;
        s += 1;
    }
    assert(tenpai@ =~= tenpai_seats(hands@, open_melds@));
    exhaustive_draw_payments(tenpai, winner, dealer)
}

/// Every nagashi candidate is a seat of the table.
proof fn lemma_nagashi_seats(discards: Seq<Seq<Tile>>, called_from: Seq<bool>, n: int)
    requires
        0 <= n <= 4,
    ensures
        forall|i: int| 0 <= i < nagashi_below(discards, called_from, n).len() ==> #[trigger] nagashi_below(discards, called_from, n)[i] < n,
    decreases n,
{
    if n > 0 {
        lemma_nagashi_seats(discards, called_from, n - 1);
        let prev = nagashi_below(discards, called_from, n - 1);
        let cur = nagashi_below(discards, called_from, n);
        assert forall|i: int| 0 <= i < cur.len() implies #[trigger] cur[i] < n by {
            if i < prev.len() {
                assert(cur[i] == prev[i]);
            }
        }
    }
}

/// A seat is a nagashi candidate exactly when its discards qualify and
/// nobody called from it.
pub proof fn lemma_nagashi_candidates(discards: Seq<Seq<Tile>>, called_from: Seq<bool>, n: int, s: int)
    requires
        0 <= s < n <= 4,
    ensures
        nagashi_below(discards, called_from, n).contains(s as usize) <==> (nagashi_discards(discards[s])
            && !called_from[s]),
    decreases n,
{
    let prev = nagashi_below(discards, called_from, n - 1);
    let cur = nagashi_below(discards, called_from, n);
    lemma_nagashi_below_range(discards, called_from, n - 1);
    if s < n - 1 {
        lemma_nagashi_candidates(discards, called_from, n - 1, s);
        if prev.contains(s as usize) {
            let k = choose|k: int| 0 <= k < prev.len() && prev[k] == s as usize;
            assert(cur[k] == s as usize);
        }
        if cur.contains(s as usize) {
            let k = choose|k: int| 0 <= k < cur.len() && cur[k] == s as usize;
            if k < prev.len() {
                assert(prev[k] == s as usize);
            }
        }
    } else {
        if prev.contains(s as usize) {
            let k = choose|k: int| 0 <= k < prev.len() && prev[k] == s as usize;
            assert(prev[k] < n - 1);
        }
        if nagashi_discards(discards[s]) && !called_from[s] {
            assert(cur[prev.len() as int] == s as usize);
        }
        if cur.contains(s as usize) {
            let k = choose|k: int| 0 <= k < cur.len() && cur[k] == s as usize;
            if k < prev.len() {
                assert(prev[k] == s as usize);
            }
        }
    }
}

proof fn lemma_nagashi_below_range(discards: Seq<Seq<Tile>>, called_from: Seq<bool>, n: int)
    ensures
        forall|k: int| 0 <= k < nagashi_below(discards, called_from, n).len() ==> (#[trigger] nagashi_below(
            discards,
            called_from,
            n,
        )[k]) < n,
    decreases n,
{
    if n > 0 {
        lemma_nagashi_below_range(discards, called_from, n - 1);
        let prev = nagashi_below(discards, called_from, n - 1);
        let cur = nagashi_below(discards, called_from, n);
        assert forall|k: int| 0 <= k < cur.len() implies (#[trigger] cur[k]) < n by {
            if k < prev.len() {
                assert(cur[k] == prev[k]);
            }
        }
    }
}

/// Whether the kind appears among the tiles or the drawn tile.
pub open spec fn kind_seen(hand: Seq<Tile>, drawn: Option<Tile>, k: int) -> bool {
    (exists|i: int| 0 <= i < hand.len() && (#[trigger] hand[i]).spec_tile_type().0 == k) || (drawn matches Some(
        t,
    ) && t.spec_tile_type().0 == k)
}

/// The terminal and honour kinds among the first `n` of the thirteen that
/// appear.
pub open spec fn orphan_kinds_seen(hand: Seq<Tile>, drawn: Option<Tile>, n: int) -> int
    decreases n,
{
    if n <= 0 {
        0
    } else {
        orphan_kinds_seen(hand, drawn, n - 1) + if kind_seen(hand, drawn, orphan_kind(n - 1)) {
            1int
        } else {
            0int
        }
    }
}

/// Kyuushu kyuuhai: on the player's own first turn, before any call, with
/// fourteen tiles holding nine different terminal and honour kinds.
pub open spec fn kyuushu_spec(
    is_current: bool,
    any_call: bool,
    has_discarded: bool,
    hand: Seq<Tile>,
    drawn: Option<Tile>,
) -> bool {
    &&& is_current
    &&& !any_call
    &&& !has_discarded
    &&& hand.len() + (if drawn is Some {
        1int
    } else {
        0int
    }) == 14
    &&& orphan_kinds_seen(hand, drawn, 13) >= 9
}

fn kind_seen_exec(hand: &[Tile], drawn: Option<Tile>, k: u8) -> (b: bool)
    ensures
        b == kind_seen(hand@, drawn, k as int),
{
    let mut i: usize = 0;
    while i < hand.len()
        invariant
            i <= hand@.len(),
            forall|j: int| 0 <= j < i ==> (#[trigger] hand@[j]).spec_tile_type().0 != k,
        decreases hand@.len() - i,
    {
        if hand[i].tile_type().0 == k {
            assert(hand@[i as int].spec_tile_type().0 == k);
            return true;
        }
        i += 1;
    }
    match drawn {
        Some(t) => t.tile_type().0 == k,
        None => false,
    }
}

pub fn can_declare_kyuushu(
    is_current: bool,
    any_call: bool,
    has_discarded: bool,
    hand: &[Tile],
    drawn: Option<Tile>,
) -> (b: bool)
    ensures
        b == kyuushu_spec(is_current, any_call, has_discarded, hand@, drawn),
{
    if !is_current || any_call || has_discarded {
        return false;
    }
    let extra: usize = if drawn.is_some() {
        1
    } else {
        0
    };
    if hand.len() > 14 || hand.len() + extra != 14 {
        return false;
    }
    let mut seen: u8 = 0;
    let mut n: usize = 0;
    while n < 13
        invariant
            n <= 13,
            seen == orphan_kinds_seen(hand@, drawn, n as int),
            seen <= n,
        decreases 13 - n,
    {
        let k: u8 = if n < 6 {
            if n % 2 == 0 {
                ((n / 2) * 9) as u8
            } else {
                ((n / 2) * 9 + 8) as u8
            }
        } else {
            (27 + (n - 6)) as u8
        };
        assert(k == orphan_kind(n as int));
        if kind_seen_exec(hand, drawn, k) {
            seen += 1;
        }
        n += 1;
    }
    seen >= 9
}

/// Four winds: the four first discards are one wind, with no call and no
/// other discard in between.
pub open spec fn suufon_spec(any_call: bool, discard_count: int, first: Seq<Option<TileType>>) -> bool {
    &&& !any_call
    &&& discard_count == 4
    &&& forall|s: int| 0 <= s < 4 ==> (#[trigger] first[s]) is Some
    &&& first[0]->Some_0.spec_is_wind()
    &&& forall|s: int| 0 <= s < 4 ==> #[trigger] first[s] == first[0]
}

pub fn check_suufon_renda(any_call: bool, discard_count: usize, first: [Option<TileType>; 4]) -> (b: bool)
    ensures
        b == suufon_spec(any_call, discard_count as int, first@),
{
    if any_call || discard_count != 4 {
        return false;
    }
    match (first[0], first[1], first[2], first[3]) {
        (Some(a), Some(b), Some(c), Some(d)) => {
            let r = a.is_wind() && a == b && a == c && a == d;
            proof {
                if !r {
                    if !(a == b) {
                        assert(first@[1] != first@[0]);
                    } else if !(a == c) {
                        assert(first@[2] != first@[0]);
                    } else if !(a == d) {
                        assert(first@[3] != first@[0]);
                    }
                }
            }
            r
        },
        _ => {
            proof {
                if first[0] is None {
                    assert(first@[0] is None);
                } else if first[1] is None {
                    assert(first@[1] is None);
                } else if first[2] is None {
                    assert(first@[2] is None);
                } else {
                    assert(first@[3] is None);
                }
            }
            false
        },
    }
}

/// Four kans abort the round when at least two seats made them.
pub open spec fn four_kan_spec(kan_count: int, kan_callers: Seq<usize>) -> bool {
    kan_count >= 4 && exists|i: int, j: int|
        0 <= i < kan_callers.len() && 0 <= j < kan_callers.len() && #[trigger] kan_callers[i] != #[trigger] kan_callers[j]
}

pub fn check_four_kan_abort(kan_count: usize, kan_callers: &[usize]) -> (b: bool)
    ensures
        b == four_kan_spec(kan_count as int, kan_callers@),
{
    if kan_count < 4 || kan_callers.len() == 0 {
        return false;
    }
    let first = kan_callers[0];
    let mut i: usize = 1;
    while i < kan_callers.len()
        invariant
            1 <= i <= kan_callers@.len(),
            kan_count >= 4,
            first == kan_callers@[0],
            forall|k: int| 0 <= k < i ==> kan_callers@[k] == first,
        decreases kan_callers@.len() - i,
    {
        if kan_callers[i] != first {
            assert(kan_callers@[0] != kan_callers@[i as int]);
            return true;
        }
        i += 1;
    }
    proof {
        if four_kan_spec(kan_count as int, kan_callers@) {
            let (a, b) = choose|a: int, b: int|
                0 <= a < kan_callers@.len() && 0 <= b < kan_callers@.len() && #[trigger] kan_callers@[a]
                    != #[trigger] kan_callers@[b];
            assert(kan_callers@[a] == first && kan_callers@[b] == first);
        }
    }
    false
}

/// The points each seat gained or lost over the round.
pub fn round_point_changes(points: [i32; 4], round_start_points: [i32; 4]) -> (d: [i32; 4])
    requires
        forall|i: int| 0 <= i < 4 ==> i32::MIN <= #[trigger] points[i] - round_start_points[i] <= i32::MAX,
    ensures
        forall|i: int| 0 <= i < 4 ==> #[trigger] d[i] == points[i] - round_start_points[i],
{
    [
        points[0] - round_start_points[0],
        points[1] - round_start_points[1],
        points[2] - round_start_points[2],
        points[3] - round_start_points[3],
    ]
}

/// The label of how the last round ended: tsumo, ron, exhaustive draw or
/// aborted draw; a neutral label when no round has ended.
pub open spec fn round_end_label_spec(last: Option<RoundEnd>) -> Seq<char> {
    match last {
        Some(RoundEnd::Win { is_tsumo: true, .. }) => "自摸"@,
        Some(RoundEnd::Win { is_tsumo: false, .. }) => "荣和"@,
        Some(RoundEnd::MultiWin { .. }) => "荣和"@,
        Some(RoundEnd::ExhaustiveDraw) => "流局"@,
        Some(_) => "途中流局"@,
        None => "局结束"@,
    }
}

/// The label of how the last round ended (see `round_end_label_spec`).
pub fn round_end_reason(last: &Option<RoundEnd>) -> (label: &'static str)
    ensures
        label@ == round_end_label_spec(*last),
{
    match last {
        Some(RoundEnd::Win { is_tsumo: true, .. }) => "自摸",
        Some(RoundEnd::Win { is_tsumo: false, .. }) | Some(RoundEnd::MultiWin { .. }) => "荣和",
        Some(RoundEnd::ExhaustiveDraw) => "流局",
        Some(RoundEnd::KyuushuKyuuhai) | Some(RoundEnd::SuufonRenda) | Some(RoundEnd::SuuchaRiichi) | Some(
            RoundEnd::SuuKantsu,
        ) => "途中流局",
        None => "局结束",
    }
}

} // verus!
