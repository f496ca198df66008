use vstd::prelude::*;
use crate::player::PlayerId;
use crate::counts::{count_kind, lemma_count_kind_bounds, TileCounts};
use crate::shanten::tile_kind_counts;
use crate::shape::{is_winning, is_winning_counts};
use crate::tile::Tile;

verus! {

/// A player's answer to another player's discard.
#[derive(Debug, Clone, Copy)]
pub enum ResponseAction {
    Pass,
    Ron,
    Pon { hand_tiles: [Tile; 2] },
    Chi { hand_tiles: [Tile; 2] },
    Minkan { hand_tiles: [Tile; 3] },
}

/// A call offered on a discard, with the hand tiles it takes.
#[derive(Debug, Clone, Copy)]
pub enum CallType {
    Ron,
    Minkan { hand_tiles: [Tile; 3] },
    Pon { hand_tiles: [Tile; 2] },
    Chi { hand_tiles: [Tile; 2] },
}

#[derive(Debug, Clone, Copy)]
pub struct CallOption {
    pub player: PlayerId,
    pub call_type: CallType,
}

/// Calls by strength: open kan, then pon, then chi; passing and ron
/// claim nothing here.
pub open spec fn call_strength(action: ResponseAction) -> int {
    match action {
        ResponseAction::Minkan { .. } => 3,
        ResponseAction::Pon { .. } => 2,
        ResponseAction::Chi { .. } => 1,
        _ => 0,
    }
}

/// Seats after the discarder in turn order: 1 for the next seat, 3 for
/// the seat before it (0 for the discarder).
pub open spec fn seats_after(player: int, discarder: int) -> int {
    (player + 4 - discarder) % 4
}

/// The priority of a call: its strength, then nearness in turn order.
pub open spec fn call_key(player: PlayerId, action: ResponseAction, discarder: PlayerId) -> (int, int) {
    (call_strength(action), 4 - seats_after(player.0 as int, discarder.0 as int))
}

pub open spec fn key_above(a: (int, int), b: (int, int)) -> bool {
    a.0 > b.0 || (a.0 == b.0 && a.1 > b.1)
}

pub fn call_priority_key(player: PlayerId, action: &ResponseAction, discarder: PlayerId) -> (k: (u8, u8))
    requires
        player.0 < 4,
        discarder.0 < 4,
    ensures
        k.0 == call_key(player, *action, discarder).0,
        k.1 == call_key(player, *action, discarder).1,
{
    let priority: u8 = match action {
        ResponseAction::Minkan { .. } => 3,
        ResponseAction::Pon { .. } => 2,
        ResponseAction::Chi { .. } => 1,
        ResponseAction::Pass | ResponseAction::Ron => 0,
    };
    let distance = ((player.0 + 4 - discarder.0) % 4) as u8;
    (priority, 4 - distance)
}

/// Whether a new call takes over from the call held so far: it must rank
/// strictly above it; any call takes over from none.
pub fn should_replace_call(
    current: Option<(PlayerId, ResponseAction)>,
    candidate_player: PlayerId,
    candidate: &ResponseAction,
    discarder: PlayerId,
) -> (b: bool)
    requires
        candidate_player.0 < 4,
        discarder.0 < 4,
        current matches Some((p, _)) ==> p.0 < 4,
    ensures
        b == match current {
            Some((p, a)) => key_above(call_key(candidate_player, *candidate, discarder), call_key(p, a, discarder)),
            None => true,
        },
{
    let candidate_key = call_priority_key(candidate_player, candidate, discarder);
    match current {
        Some((player, action)) => {
            let k = call_priority_key(player, &action, discarder);
            candidate_key.0 > k.0 || (candidate_key.0 == k.0 && candidate_key.1 > k.1)
        },
        None => true,
    }
}

/// One player's answer to a discard, and whether ron was among the
/// options that player was offered.
#[derive(Debug, Clone, Copy)]
pub struct CallAnswer {
    pub player: PlayerId,
    pub action: ResponseAction,
    pub may_ron: bool,
}

/// What the answers to a discard come to: ron by the winners, in turn
/// order after the discarder; else the one call that wins; else nothing.
#[derive(Debug, Clone)]
pub enum ResponseOutcome {
    Ron { winners: Vec<PlayerId> },
    Call { player: PlayerId, action: ResponseAction },
    AllPass,
}

pub open spec fn is_call(action: ResponseAction) -> bool {
    action is Pon || action is Chi || action is Minkan
}

/// Player `p` answered ron and was offered it.
pub open spec fn declares_ron(answers: Seq<CallAnswer>, p: PlayerId) -> bool {
    exists|i: int|
        0 <= i < answers.len() && (#[trigger] answers[i]).player == p && answers[i].action is Ron
            && answers[i].may_ron
}

/// The seat `n` places after the discarder.
pub open spec fn seat_after(discarder: PlayerId, n: int) -> PlayerId {
    PlayerId(((discarder.0 + n) % 4) as usize)
}

/// The players among the `n` seats after the discarder, nearest first,
/// who declared ron.
pub open spec fn ron_order(answers: Seq<CallAnswer>, discarder: PlayerId, n: int) -> Seq<PlayerId>
    decreases n,
{
    if n <= 0 {
        seq![]
    } else if declares_ron(answers, seat_after(discarder, n)) {
        ron_order(answers, discarder, n - 1).push(seat_after(discarder, n))
    } else {
        ron_order(answers, discarder, n - 1)
    }
}

/// The winners by ron: those who declared it, nearest to the discarder
/// first, at most `max_winners` of them.
pub open spec fn ron_winners(answers: Seq<CallAnswer>, discarder: PlayerId, max_winners: int) -> Seq<PlayerId> {
    let all = ron_order(answers, discarder, 3);
    if all.len() > max_winners {
        all.take(max_winners)
    } else {
        all
    }
}

/// The call held after the first `n` answers: each call that ranks
/// strictly above the one held (or comes when none is held) takes over.
pub open spec fn held_call(answers: Seq<CallAnswer>, n: int, discarder: PlayerId) -> Option<(PlayerId, ResponseAction)>
    decreases n,
{
    if n <= 0 {
        None
    } else {
        let held = held_call(answers, n - 1, discarder);
        let a = answers[n - 1];
        if is_call(a.action) && match held {
            Some((p, b)) => key_above(call_key(a.player, a.action, discarder), call_key(p, b, discarder)),
            None => true,
        } {
            Some((a.player, a.action))
        } else {
            held
        }
    }
}

/// The answers of a discard with valid seats.
pub open spec fn answers_wf(answers: Seq<CallAnswer>) -> bool {
    forall|i: int| 0 <= i < answers.len() ==> (#[trigger] answers[i]).player.0 < 4
}

fn answered_ron(answers: &[CallAnswer], p: PlayerId) -> (b: bool)
    ensures
        b == declares_ron(answers@, p),
{
    let mut i: usize = 0;
    while i < answers.len()
        invariant
            i <= answers@.len(),
            forall|j: int|
                0 <= j < i ==> !((#[trigger] answers@[j]).player == p && answers@[j].action is Ron
                    && answers@[j].may_ron),
        decreases answers.len() - i,
    {
        let a = answers[i];
        if a.player.0 == p.0 && a.may_ron {
            if let ResponseAction::Ron = a.action {
                return true;
            }
        }
        i += 1;
    }
    false
}

/// Settles the answers to a discard: a ron by anyone who was offered it
/// takes the tile (several winners, nearest after the discarder first, up
/// to `max_winners`); otherwise the call of highest rank (strength, then
/// nearness, the earlier of equals) is made; otherwise all passed.
pub fn resolve_call_answers(discarder: PlayerId, answers: &[CallAnswer], max_winners: usize) -> (r: ResponseOutcome)
    requires
        discarder.0 < 4,
        answers_wf(answers@),
        1 <= max_winners <= 3,
    ensures
        match r {
            ResponseOutcome::Ron { winners } => winners@ == ron_winners(answers@, discarder, max_winners as int)
                && winners@.len() > 0,
            ResponseOutcome::Call { player, action } => ron_order(answers@, discarder, 3).len() == 0
                && held_call(answers@, answers@.len() as int, discarder) == Some((player, action)),
            ResponseOutcome::AllPass => ron_order(answers@, discarder, 3).len() == 0
                && held_call(answers@, answers@.len() as int, discarder) is None,
        },
{
    let mut accepted: Option<(PlayerId, ResponseAction)> = None;
    let mut i: usize = 0;
    while i < answers.len()
        invariant
            i <= answers@.len(),
            discarder.0 < 4,
            answers_wf(answers@),
            accepted == held_call(answers@, i as int, discarder),
            accepted matches Some((p, _)) ==> p.0 < 4,
        decreases answers.len() - i,
    {
        let a = answers[i];
        assert(a.player.0 < 4);
        match a.action {
            ResponseAction::Pon { .. } | ResponseAction::Chi { .. } | ResponseAction::Minkan { .. } => {
                if should_replace_call(accepted, a.player, &a.action, discarder) {
                    accepted = Some((a.player, a.action));
                }
            },
            _ => {},
        }
        i += 1;
    }
    let mut winners: Vec<PlayerId> = Vec::new();
    let mut offset: usize = 1;
    while offset < 4
        invariant
            1 <= offset <= 4,
            discarder.0 < 4,
            winners@ == ron_order(answers@, discarder, offset - 1),
        decreases 4 - offset,
    {
        let candidate = PlayerId((discarder.0 + offset) % 4);
        assert(candidate == seat_after(discarder, offset as int));
        if answered_ron(answers, candidate) {
            winners.push(candidate);
        }
        offset += 1;
    }
    if winners.len() > 0 {
        if winners.len() > max_winners {
            winners.truncate(max_winners);
        }
        return ResponseOutcome::Ron { winners };
    }
    match accepted {
        Some((player, action)) => ResponseOutcome::Call { player, action },
        None => ResponseOutcome::AllPass,
    }
}

/// What call detection reads of a seat: its concealed tiles, the tiles
/// of its calls, and whether it is furiten.
#[derive(Debug, Clone)]
pub struct SeatHand {
    pub hand: Vec<Tile>,
    pub meld_tiles: Vec<Tile>,
    pub is_furiten: bool,
}

pub open spec fn kind_of(t: Tile) -> int {
    t.spec_tile_type().0 as int
}

/// The tiles of kind `k`, in order.
pub open spec fn tiles_of_kind(tiles: Seq<Tile>, k: int) -> Seq<Tile> {
    tiles.filter(|t: Tile| kind_of(t) == k)
}

/// Ron is offered on `d`: the seat is not furiten and its concealed
/// tiles, the tiles of its calls and `d` make a complete hand.
pub open spec fn ron_offered(s: SeatHand, d: Tile) -> bool {
    let all = s.hand@ + s.meld_tiles@ + seq![d];
    !s.is_furiten && is_winning_counts(tile_kind_counts(all, all.len() as int))
}

pub open spec fn seat_id(n: int) -> PlayerId {
    PlayerId(n as usize)
}

/// Ron offers of the first `n` seats (the discarder's own skipped).
pub open spec fn ron_calls(seats: Seq<SeatHand>, d: Tile, discarder: PlayerId, n: int) -> Seq<CallOption>
    decreases n,
{
    if n <= 0 {
        seq![]
    } else {
        ron_calls(seats, d, discarder, n - 1) + if n - 1 != discarder.0 && ron_offered(seats[n - 1], d) {
            seq![CallOption { player: seat_id(n - 1), call_type: CallType::Ron }]
        } else {
            seq![]
        }
    }
}

/// Open kan offers: a seat holding three of the discarded kind, with the
/// first three of them.
pub open spec fn minkan_calls(seats: Seq<SeatHand>, d: Tile, discarder: PlayerId, n: int) -> Seq<CallOption>
    decreases n,
{
    if n <= 0 {
        seq![]
    } else {
        let f = tiles_of_kind(seats[n - 1].hand@, kind_of(d));
        minkan_calls(seats, d, discarder, n - 1) + if n - 1 != discarder.0 && f.len() >= 3 {
            seq![CallOption { player: seat_id(n - 1), call_type: CallType::Minkan { hand_tiles: [f[0], f[1], f[2]] } }]
        } else {
            seq![]
        }
    }
}

/// Pon offers: a seat holding two of the discarded kind, with the first two.
pub open spec fn pon_calls(seats: Seq<SeatHand>, d: Tile, discarder: PlayerId, n: int) -> Seq<CallOption>
    decreases n,
{
    if n <= 0 {
        seq![]
    } else {
        let f = tiles_of_kind(seats[n - 1].hand@, kind_of(d));
        pon_calls(seats, d, discarder, n - 1) + if n - 1 != discarder.0 && f.len() >= 2 {
            seq![CallOption { player: seat_id(n - 1), call_type: CallType::Pon { hand_tiles: [f[0], f[1]] } }]
        } else {
            seq![]
        }
    }
}

/// A chi with the first tiles of kinds `a` and `b`, when the hand has both.
pub open spec fn chi_with(hand: Seq<Tile>, who: PlayerId, ok: bool, a: int, b: int) -> Seq<CallOption> {
    let x = tiles_of_kind(hand, a);
    let y = tiles_of_kind(hand, b);
    if ok && x.len() > 0 && y.len() > 0 {
        seq![CallOption { player: who, call_type: CallType::Chi { hand_tiles: [x[0], y[0]] } }]
    } else {
        seq![]
    }
}

/// Chi offers, to the seat after the discarder only and on number tiles
/// only: the discard as the highest, middle and lowest of the sequence.
pub open spec fn chi_calls(seats: Seq<SeatHand>, d: Tile, discarder: PlayerId) -> Seq<CallOption> {
    let next = (discarder.0 + 1) % 4;
    let hand = seats[next].hand@;
    let k = kind_of(d);
    let rank = k % 9 + 1;
    if k < 27 {
        chi_with(hand, seat_id(next), rank >= 3, k - 2, k - 1) + chi_with(
            hand,
            seat_id(next),
            2 <= rank <= 8,
            k - 1,
            k + 1,
        ) + chi_with(hand, seat_id(next), rank <= 7, k + 1, k + 2)
    } else {
        seq![]
    }
}

/// Every call offered on the discard `d`: rons, then open kans, then pons,
/// then chis, each in seat order.
pub open spec fn detect_calls_spec(seats: Seq<SeatHand>, d: Tile, discarder: PlayerId) -> Seq<CallOption> {
    ron_calls(seats, d, discarder, 4) + minkan_calls(seats, d, discarder, 4) + pon_calls(seats, d, discarder, 4)
        + chi_calls(seats, d, discarder)
}

/// Kinds `x`, `y` and `z` are `lo`, `lo + 1` and `lo + 2` in some order:
/// three consecutive ranks of one number suit.
pub open spec fn run_from(lo: int, x: int, y: int, z: int) -> bool {
    &&& 0 <= lo && lo + 2 < 27 && lo % 9 <= 6
    &&& lo <= x <= lo + 2 && lo <= y <= lo + 2 && lo <= z <= lo + 2
    &&& x != y && y != z && x != z
}

pub open spec fn no_chi(options: Seq<CallOption>) -> bool {
    forall|i: int| 0 <= i < options.len() ==> !((#[trigger] options[i]).call_type is Chi)
}

proof fn lemma_no_chi_concat(a: Seq<CallOption>, b: Seq<CallOption>)
    requires
        no_chi(a),
        no_chi(b),
    ensures
        no_chi(a + b),
{
    assert forall|i: int| 0 <= i < (a + b).len() implies !((#[trigger] (a + b)[i]).call_type is Chi) by {
        if i < a.len() {
            assert((a + b)[i] == a[i]);
        } else {
            assert((a + b)[i] == b[i - a.len()]);
        }
    }
}

proof fn lemma_ron_kan_pon_calls_no_chi(seats: Seq<SeatHand>, d: Tile, discarder: PlayerId, n: int)
    ensures
        no_chi(ron_calls(seats, d, discarder, n)),
        no_chi(minkan_calls(seats, d, discarder, n)),
        no_chi(pon_calls(seats, d, discarder, n)),
    decreases n,
{
    if n > 0 {
        lemma_ron_kan_pon_calls_no_chi(seats, d, discarder, n - 1);
        let r = if n - 1 != discarder.0 && ron_offered(seats[n - 1], d) {
            seq![CallOption { player: seat_id(n - 1), call_type: CallType::Ron }]
        } else {
            seq![]
        };
        let f = tiles_of_kind(seats[n - 1].hand@, kind_of(d));
        let k = if n - 1 != discarder.0 && f.len() >= 3 {
            seq![CallOption { player: seat_id(n - 1), call_type: CallType::Minkan { hand_tiles: [f[0], f[1], f[2]] } }]
        } else {
            seq![]
        };
        let p = if n - 1 != discarder.0 && f.len() >= 2 {
            seq![CallOption { player: seat_id(n - 1), call_type: CallType::Pon { hand_tiles: [f[0], f[1]] } }]
        } else {
            seq![]
        };
        assert(no_chi(r));
        assert(no_chi(k));
        assert(no_chi(p));
        lemma_no_chi_concat(ron_calls(seats, d, discarder, n - 1), r);
        lemma_no_chi_concat(minkan_calls(seats, d, discarder, n - 1), k);
        lemma_no_chi_concat(pon_calls(seats, d, discarder, n - 1), p);
    }
}

/// What a chi offer on `d` to `who` must be: the two hand tiles and `d`
/// make a run.
pub open spec fn chi_is_run(o: CallOption, d: Tile, who: PlayerId) -> bool {
    match o.call_type {
        CallType::Chi { hand_tiles } => o.player == who && exists|lo: int|
            #[trigger] run_from(lo, kind_of(hand_tiles[0]), kind_of(hand_tiles[1]), kind_of(d)),
        _ => true,
    }
}

proof fn lemma_chi_with_is_run(hand: Seq<Tile>, who: PlayerId, ok: bool, a: int, b: int, d: Tile, lo: int)
    requires
        ok ==> run_from(lo, a, b, kind_of(d)),
    ensures
        forall|i: int|
            0 <= i < chi_with(hand, who, ok, a, b).len() ==> chi_is_run(
                #[trigger] chi_with(hand, who, ok, a, b)[i],
                d,
                who,
            ),
{
    let x = tiles_of_kind(hand, a);
    let y = tiles_of_kind(hand, b);
    if ok && x.len() > 0 && y.len() > 0 {
        hand.lemma_filter_pred(|t: Tile| kind_of(t) == a, 0);
        hand.lemma_filter_pred(|t: Tile| kind_of(t) == b, 0);
        assert(kind_of(x[0]) == a);
        assert(kind_of(y[0]) == b);
        let ht = [x[0], y[0]];
        assert(ht[0] == x[0] && ht[1] == y[0]);
        assert(run_from(lo, kind_of(ht[0]), kind_of(ht[1]), kind_of(d)));
        let o = CallOption { player: who, call_type: CallType::Chi { hand_tiles: ht } };
        assert(chi_with(hand, who, ok, a, b) == seq![o]);
        assert(o.call_type->hand_tiles == ht);
        assert(run_from(
            lo,
            kind_of(o.call_type->hand_tiles[0]),
            kind_of(o.call_type->hand_tiles[1]),
            kind_of(d),
        ));
        assert(chi_is_run(o, d, who));
    }
}

/// Every chi offered on a discard goes to the seat right after the
/// discarder and forms, with the discard, three consecutive ranks of one
/// number suit: the kinds of the two hand tiles and of the discard are
/// `lo`, `lo + 1` and `lo + 2` for some number kind `lo` of rank 7 or
/// lower. No chi crosses suits, wraps from 9 to 1, or uses an honor.
pub proof fn lemma_every_chi_is_a_run(seats: Seq<SeatHand>, d: Tile, discarder: PlayerId)
    requires
        seats.len() == 4,
        discarder.0 < 4,
    ensures
        forall|i: int|
            0 <= i < detect_calls_spec(seats, d, discarder).len() ==> match (#[trigger] detect_calls_spec(
                seats,
                d,
                discarder,
            )[i]).call_type {
                CallType::Chi { hand_tiles } => detect_calls_spec(seats, d, discarder)[i].player
                    == seat_id((discarder.0 + 1) % 4) && exists|lo: int|
                    #[trigger] run_from(lo, kind_of(hand_tiles[0]), kind_of(hand_tiles[1]), kind_of(d)),
                _ => true,
            },
{
    let who = seat_id((discarder.0 + 1) % 4);
    let front = ron_calls(seats, d, discarder, 4) + minkan_calls(seats, d, discarder, 4) + pon_calls(
        seats,
        d,
        discarder,
        4,
    );
    lemma_ron_kan_pon_calls_no_chi(seats, d, discarder, 4);
    lemma_no_chi_concat(ron_calls(seats, d, discarder, 4), minkan_calls(seats, d, discarder, 4));
    lemma_no_chi_concat(
        ron_calls(seats, d, discarder, 4) + minkan_calls(seats, d, discarder, 4),
        pon_calls(seats, d, discarder, 4),
    );
    let chis = chi_calls(seats, d, discarder);
    let next = (discarder.0 + 1) % 4;
    let hand = seats[next].hand@;
    let k = kind_of(d);
    let rank = k % 9 + 1;
    assert forall|i: int| 0 <= i < chis.len() implies chi_is_run(#[trigger] chis[i], d, who) by {
        if k < 27 {
            let c1 = chi_with(hand, who, rank >= 3, k - 2, k - 1);
            let c2 = chi_with(hand, who, 2 <= rank <= 8, k - 1, k + 1);
            let c3 = chi_with(hand, who, rank <= 7, k + 1, k + 2);
            lemma_chi_with_is_run(hand, who, rank >= 3, k - 2, k - 1, d, k - 2);
            lemma_chi_with_is_run(hand, who, 2 <= rank <= 8, k - 1, k + 1, d, k - 1);
            lemma_chi_with_is_run(hand, who, rank <= 7, k + 1, k + 2, d, k);
            assert(chis == c1 + c2 + c3);
            if i < c1.len() {
                assert(chis[i] == c1[i]);
            } else if i < c1.len() + c2.len() {
                assert(chis[i] == c2[i - c1.len()]);
            } else {
                assert(chis[i] == c3[i - c1.len() - c2.len()]);
            }
        }
    }
    let all = detect_calls_spec(seats, d, discarder);
    assert(all == front + chis);
    assert forall|i: int| 0 <= i < all.len() implies chi_is_run(#[trigger] all[i], d, who) by {
        if i < front.len() {
            assert(all[i] == front[i]);
            assert(!(front[i].call_type is Chi));
        } else {
            assert(all[i] == chis[i - front.len()]);
        }
    }
}

/// What every offer on `d` must be: to a seat other than the discarder,
/// and for a pon or an open kan, with hand tiles of the discarded kind.
pub open spec fn offer_fits(o: CallOption, d: Tile, discarder: PlayerId) -> bool {
    &&& o.player != discarder
    &&& o.player.0 < 4
    &&& match o.call_type {
        CallType::Pon { hand_tiles } => kind_of(hand_tiles[0]) == kind_of(d) && kind_of(hand_tiles[1])
            == kind_of(d),
        CallType::Minkan { hand_tiles } => kind_of(hand_tiles[0]) == kind_of(d) && kind_of(
            hand_tiles[1],
        ) == kind_of(d) && kind_of(hand_tiles[2]) == kind_of(d),
        _ => true,
    }
}

pub open spec fn all_offers_fit(options: Seq<CallOption>, d: Tile, discarder: PlayerId) -> bool {
    forall|i: int| 0 <= i < options.len() ==> offer_fits(#[trigger] options[i], d, discarder)
}

proof fn lemma_offers_fit_concat(a: Seq<CallOption>, b: Seq<CallOption>, d: Tile, discarder: PlayerId)
    requires
        all_offers_fit(a, d, discarder),
        all_offers_fit(b, d, discarder),
    ensures
        all_offers_fit(a + b, d, discarder),
{
    assert forall|i: int| 0 <= i < (a + b).len() implies offer_fits(#[trigger] (a + b)[i], d, discarder) by {
        if i < a.len() {
            assert((a + b)[i] == a[i]);
        } else {
            assert((a + b)[i] == b[i - a.len()]);
        }
    }
}

proof fn lemma_seat_offers_fit(seats: Seq<SeatHand>, d: Tile, discarder: PlayerId, n: int)
    requires
        n <= 4,
    ensures
        all_offers_fit(ron_calls(seats, d, discarder, n), d, discarder),
        all_offers_fit(minkan_calls(seats, d, discarder, n), d, discarder),
        all_offers_fit(pon_calls(seats, d, discarder, n), d, discarder),
    decreases n,
{
    if n > 0 {
        lemma_seat_offers_fit(seats, d, discarder, n - 1);
        let who = seat_id(n - 1);
        let r = if n - 1 != discarder.0 && ron_offered(seats[n - 1], d) {
            seq![CallOption { player: who, call_type: CallType::Ron }]
        } else {
            seq![]
        };
        let hand = seats[n - 1].hand@;
        let f = tiles_of_kind(hand, kind_of(d));
        if f.len() >= 2 {
            hand.lemma_filter_pred(|t: Tile| kind_of(t) == kind_of(d), 0);
            hand.lemma_filter_pred(|t: Tile| kind_of(t) == kind_of(d), 1);
        }
        if f.len() >= 3 {
            hand.lemma_filter_pred(|t: Tile| kind_of(t) == kind_of(d), 2);
        }
        let k = if n - 1 != discarder.0 && f.len() >= 3 {
            seq![CallOption { player: who, call_type: CallType::Minkan { hand_tiles: [f[0], f[1], f[2]] } }]
        } else {
            seq![]
        };
        let p = if n - 1 != discarder.0 && f.len() >= 2 {
            seq![CallOption { player: who, call_type: CallType::Pon { hand_tiles: [f[0], f[1]] } }]
        } else {
            seq![]
        };
        if n - 1 != discarder.0 && f.len() >= 3 {
            let ht = [f[0], f[1], f[2]];
            assert(ht[0] == f[0] && ht[1] == f[1] && ht[2] == f[2]);
            assert(k[0].call_type->Minkan_hand_tiles == ht);
            assert(offer_fits(k[0], d, discarder));
        }
        if n - 1 != discarder.0 && f.len() >= 2 {
            let ht = [f[0], f[1]];
            assert(ht[0] == f[0] && ht[1] == f[1]);
            assert(p[0].call_type->Pon_hand_tiles == ht);
            assert(offer_fits(p[0], d, discarder));
        }
        assert(all_offers_fit(r, d, discarder));
        assert(all_offers_fit(k, d, discarder));
        assert(all_offers_fit(p, d, discarder));
        lemma_offers_fit_concat(ron_calls(seats, d, discarder, n - 1), r, d, discarder);
        lemma_offers_fit_concat(minkan_calls(seats, d, discarder, n - 1), k, d, discarder);
        lemma_offers_fit_concat(pon_calls(seats, d, discarder, n - 1), p, d, discarder);
    }
}

/// No call is ever offered to the discarder on its own discard, and every
/// pon or open kan offered on it takes hand tiles of the discarded kind.
pub proof fn lemma_offers_match_the_discard(seats: Seq<SeatHand>, d: Tile, discarder: PlayerId)
    requires
        seats.len() == 4,
        discarder.0 < 4,
    ensures
        forall|i: int|
            0 <= i < detect_calls_spec(seats, d, discarder).len() ==> offer_fits(
                #[trigger] detect_calls_spec(seats, d, discarder)[i],
                d,
                discarder,
            ),
{
    lemma_seat_offers_fit(seats, d, discarder, 4);
    let a = ron_calls(seats, d, discarder, 4);
    let b = minkan_calls(seats, d, discarder, 4);
    let c = pon_calls(seats, d, discarder, 4);
    lemma_offers_fit_concat(a, b, d, discarder);
    lemma_offers_fit_concat(a + b, c, d, discarder);
    let chis = chi_calls(seats, d, discarder);
    let next = (discarder.0 + 1) % 4;
    let k = kind_of(d);
    let rank = k % 9 + 1;
    let hand = seats[next].hand@;
    let who = seat_id(next);
    assert(who != discarder);
    assert(all_offers_fit(chis, d, discarder)) by {
        if k < 27 {
            let c1 = chi_with(hand, who, rank >= 3, k - 2, k - 1);
            let c2 = chi_with(hand, who, 2 <= rank <= 8, k - 1, k + 1);
            let c3 = chi_with(hand, who, rank <= 7, k + 1, k + 2);
            assert(all_offers_fit(c1, d, discarder));
            assert(all_offers_fit(c2, d, discarder));
            assert(all_offers_fit(c3, d, discarder));
            lemma_offers_fit_concat(c1, c2, d, discarder);
            lemma_offers_fit_concat(c1 + c2, c3, d, discarder);
        }
    }
    lemma_offers_fit_concat(a + b + c, chis, d, discarder);
}

/// The seats hold valid tiles, few enough to count.
pub open spec fn seats_wf(seats: Seq<SeatHand>) -> bool {
    &&& seats.len() == 4
    &&& forall|i: int|
        0 <= i < 4 ==> (#[trigger] seats[i]).hand@.len() + seats[i].meld_tiles@.len() < 255 && (forall|j: int|
            0 <= j < seats[i].hand@.len() ==> (#[trigger] seats[i].hand@[j]).wf()) && (forall|j: int|
            0 <= j < seats[i].meld_tiles@.len() ==> (#[trigger] seats[i].meld_tiles@[j]).wf())
}

pub(crate) fn kind_tiles(tiles: &Vec<Tile>, k: u8) -> (v: Vec<Tile>)
    ensures
        v@ == tiles_of_kind(tiles@, k as int),
{
    let ghost pred = |t: Tile| kind_of(t) == k as int;
    let mut v: Vec<Tile> = Vec::new();
    let mut i: usize = 0;
    while i < tiles.len()
        invariant
            i <= tiles@.len(),
            pred == (|t: Tile| kind_of(t) == k as int),
            v@ == tiles@.take(i as int).filter(pred),
        decreases tiles@.len() - i,
    {
        let t = tiles[i];
        proof {
            reveal(Seq::filter);
            assert(tiles@.take(i + 1).drop_last() =~= tiles@.take(i as int));
            assert(tiles@.take(i + 1).last() == t);
        }
        if t.tile_type().0 == k {
            v.push(t);
        }
        i += 1;
    }
    assert(tiles@.take(tiles@.len() as int) =~= tiles@);
    v
}

fn ron_check(seat: &SeatHand, d: Tile) -> (b: bool)
    requires
        seat.hand@.len() + seat.meld_tiles@.len() < 255,
        forall|j: int| 0 <= j < seat.hand@.len() ==> (#[trigger] seat.hand@[j]).wf(),
        forall|j: int| 0 <= j < seat.meld_tiles@.len() ==> (#[trigger] seat.meld_tiles@[j]).wf(),
        d.wf(),
    ensures
        b == ron_offered(*seat, d),
{
    let mut all: Vec<Tile> = seat.hand.clone();
    let mut i: usize = 0;
    while i < seat.meld_tiles.len()
        invariant
            i <= seat.meld_tiles@.len(),
            all@ == seat.hand@ + seat.meld_tiles@.take(i as int),
        decreases seat.meld_tiles@.len() - i,
    {
        all.push(seat.meld_tiles[i]);
        assert(seat.meld_tiles@.take(i + 1) =~= seat.meld_tiles@.take(i as int).push(seat.meld_tiles@[i as int]));
        i += 1;
    }
    assert(seat.meld_tiles@.take(seat.meld_tiles@.len() as int) =~= seat.meld_tiles@);
    all.push(d);
    let ghost s = seat.hand@ + seat.meld_tiles@ + seq![d];
    assert(all@ =~= s);
    assert forall|j: int| 0 <= j < s.len() implies (#[trigger] s[j]).wf() by {
        if j < seat.hand@.len() {
        } else if j < seat.hand@.len() + seat.meld_tiles@.len() {
            assert(s[j] == seat.meld_tiles@[j - seat.hand@.len()]);
        }
    }
    let counts = TileCounts::from_tiles(all.as_slice());
    proof {
        assert forall|k: int| 0 <= k < 34 implies count_kind(s, s.len() as int, k) <= 255 by {
            lemma_count_kind_bounds(s, s.len() as int, k);
        }
        assert(counts@ =~= tile_kind_counts(s, s.len() as int));
    }
    !seat.is_furiten && is_winning(&counts)
}

fn chi_pair(hand: &Vec<Tile>, a: u8, b: u8) -> (r: Option<[Tile; 2]>)
    ensures
        match r {
            Some(p) => tiles_of_kind(hand@, a as int).len() > 0 && tiles_of_kind(hand@, b as int).len() > 0 && p
                == [tiles_of_kind(hand@, a as int)[0], tiles_of_kind(hand@, b as int)[0]],
            None => !(tiles_of_kind(hand@, a as int).len() > 0 && tiles_of_kind(hand@, b as int).len() > 0),
        },
{
    let x = kind_tiles(hand, a);
    let y = kind_tiles(hand, b);
    if x.len() > 0 && y.len() > 0 {
        Some([x[0], y[0]])
    } else {
        None
    }
}

/// Every call the other seats are offered on a discard (see
/// `detect_calls_spec`).
pub fn detect_calls(seats: &[SeatHand; 4], discarded_tile: Tile, discarder: PlayerId) -> (options: Vec<CallOption>)
    requires
        seats_wf(seats@),
        discarded_tile.wf(),
        discarder.0 < 4,
    ensures
        options@ == detect_calls_spec(seats@, discarded_tile, discarder),
{
    let k = discarded_tile.tile_type().0;
    let mut rons: Vec<CallOption> = Vec::new();
    let mut kans: Vec<CallOption> = Vec::new();
    let mut pons: Vec<CallOption> = Vec::new();
    let mut idx: usize = 0;
    while idx < 4
        invariant
            idx <= 4,
            seats_wf(seats@),
            discarded_tile.wf(),
            k as int == kind_of(discarded_tile),
            rons@ == ron_calls(seats@, discarded_tile, discarder, idx as int),
            kans@ == minkan_calls(seats@, discarded_tile, discarder, idx as int),
            pons@ == pon_calls(seats@, discarded_tile, discarder, idx as int),
        decreases 4 - idx,
    {
        if idx != discarder.0 {
            let seat = &seats[idx];
            assert(seats@[idx as int] == *seat);
            if ron_check(seat, discarded_tile) {
                rons.push(CallOption { player: PlayerId(idx), call_type: CallType::Ron });
            }
            let same = kind_tiles(&seat.hand, k);
            if same.len() >= 3 {
                kans.push(
                    CallOption { player: PlayerId(idx), call_type: CallType::Minkan { hand_tiles: [same[0], same[1], same[2]] } },
                );
            }
            if same.len() >= 2 {
                pons.push(CallOption { player: PlayerId(idx), call_type: CallType::Pon { hand_tiles: [same[0], same[1]] } });
            }
        }
        idx += 1;
    }
    let mut options = rons;
    options.append(&mut kans);
    options.append(&mut pons);
    let next = (discarder.0 + 1) % 4;
    if k < 27 {
        let hand = &seats[next].hand;
        let rank = k % 9 + 1;
        let ghost before = options@;
        if rank >= 3 {
            if let Some(p) = chi_pair(hand, k - 2, k - 1) {
                options.push(CallOption { player: PlayerId(next), call_type: CallType::Chi { hand_tiles: p } });
            }
        }
        let ghost after_low = options@;
        assert(after_low == before + chi_with(hand@, seat_id(next as int), rank >= 3, k - 2, k - 1));
        if 2 <= rank && rank <= 8 {
            if let Some(p) = chi_pair(hand, k - 1, k + 1) {
                options.push(CallOption { player: PlayerId(next), call_type: CallType::Chi { hand_tiles: p } });
            }
        }
        let ghost after_mid = options@;
        assert(after_mid == after_low + chi_with(hand@, seat_id(next as int), 2 <= rank <= 8, k - 1, k + 1));
        if rank <= 7 {
            if let Some(p) = chi_pair(hand, k + 1, k + 2) {
                options.push(CallOption { player: PlayerId(next), call_type: CallType::Chi { hand_tiles: p } });
            }
        }
        assert(options@ == after_mid + chi_with(hand@, seat_id(next as int), rank <= 7, k + 1, k + 2));
    }
    options
}

/// Where answers are asked for: on a discard, or on an added kan that
/// may be robbed.
#[derive(Debug, Clone, Copy)]
pub enum CallWindow {
    Discard { tile: Tile, discarder: PlayerId },
    AddedKan { tile: Tile, kakan_player: PlayerId },
}

/// Rons on an added kan, over the first `n` seats: every other seat whose
/// full win check passes.
pub open spec fn robbing_calls(kakan_player: PlayerId, wins: Seq<bool>, n: int) -> Seq<CallOption>
    decreases n,
{
    if n <= 0 {
        seq![]
    } else {
        robbing_calls(kakan_player, wins, n - 1) + if n - 1 != kakan_player.0 && wins[n - 1] {
            seq![CallOption { player: seat_id(n - 1), call_type: CallType::Ron }]
        } else {
            seq![]
        }
    }
}

/// A detected call survives the full win check: it is not a ron, or the
/// seat's win check passes.
pub open spec fn survives_win_check(o: CallOption, wins: Seq<bool>) -> bool {
    !(o.call_type is Ron) || wins[o.player.0 as int]
}

/// The calls offered in a window. `wins[p]` is whether seat `p` may win on
/// the tile by the full check (furiten, a yaku, the situation). On a
/// discard: the detected calls, the rons among them only where that check
/// passes. On an added kan: a ron for each other seat whose check passes.
pub open spec fn call_options_spec(window: CallWindow, seats: Seq<SeatHand>, wins: Seq<bool>) -> Seq<CallOption> {
    match window {
        CallWindow::Discard { tile, discarder } => detect_calls_spec(seats, tile, discarder).filter(
            |o: CallOption| survives_win_check(o, wins),
        ),
        CallWindow::AddedKan { kakan_player, .. } => robbing_calls(kakan_player, wins, 4),
    }
}

/// The calls offered in a window (see `call_options_spec`).
pub fn get_call_options(window: CallWindow, seats: &[SeatHand; 4], wins: [bool; 4]) -> (options: Vec<CallOption>)
    requires
        seats_wf(seats@),
        match window {
            CallWindow::Discard { tile, discarder } => tile.wf() && discarder.0 < 4,
            CallWindow::AddedKan { .. } => true,
        },
    ensures
        options@ == call_options_spec(window, seats@, wins@),
{
    match window {
        CallWindow::Discard { tile, discarder } => {
            let detected = detect_calls(seats, tile, discarder);
            proof {
                lemma_detected_seats(seats@, tile, discarder);
            }
            let ghost pred = |o: CallOption| survives_win_check(o, wins@);
            let mut options: Vec<CallOption> = Vec::new();
            let mut i: usize = 0;
            while i < detected.len()
                invariant
                    i <= detected@.len(),
                    pred == (|o: CallOption| survives_win_check(o, wins@)),
                    forall|j: int| 0 <= j < detected@.len() ==> (#[trigger] detected@[j]).player.0 < 4,
                    options@ == detected@.take(i as int).filter(pred),
                decreases detected@.len() - i,
            {
                let o = detected[i];
                proof {
                    reveal(Seq::filter);
                    assert(detected@.take(i + 1).drop_last() =~= detected@.take(i as int));
                    assert(detected@.take(i + 1).last() == o);
                }
                assert(o.player.0 < 4);
                let keep = match o.call_type {
                    CallType::Ron => wins[o.player.0],
                    _ => true,
                };
                if keep {
                    options.push(o);
                }
                i += 1;
            }
            assert(detected@.take(detected@.len() as int) =~= detected@);
            options
        },
        CallWindow::AddedKan { kakan_player, .. } => {
            let mut options: Vec<CallOption> = Vec::new();
            let mut idx: usize = 0;
            while idx < 4
                invariant
                    idx <= 4,
                    options@ == robbing_calls(kakan_player, wins@, idx as int),
                decreases 4 - idx,
            {
                if idx != kakan_player.0 && wins[idx] {
                    options.push(CallOption { player: PlayerId(idx), call_type: CallType::Ron });
                }
                idx += 1;
            }
            options
        },
    }
}

proof fn lemma_seat_lists(seats: Seq<SeatHand>, d: Tile, discarder: PlayerId, n: int)
    requires
        0 <= n <= 4,
    ensures
        forall|j: int| 0 <= j < ron_calls(seats, d, discarder, n).len() ==> (#[trigger] ron_calls(seats, d, discarder, n)[j]).player.0 < n,
        forall|j: int| 0 <= j < minkan_calls(seats, d, discarder, n).len() ==> (#[trigger] minkan_calls(seats, d, discarder, n)[j]).player.0 < n,
        forall|j: int| 0 <= j < pon_calls(seats, d, discarder, n).len() ==> (#[trigger] pon_calls(seats, d, discarder, n)[j]).player.0 < n,
    decreases n,
{
    if n > 0 {
        lemma_seat_lists(seats, d, discarder, n - 1);
        let r = ron_calls(seats, d, discarder, n);
        let k = minkan_calls(seats, d, discarder, n);
        let p = pon_calls(seats, d, discarder, n);
        assert forall|j: int| 0 <= j < r.len() implies (#[trigger] r[j]).player.0 < n by {
            if j < ron_calls(seats, d, discarder, n - 1).len() {
                assert(r[j] == ron_calls(seats, d, discarder, n - 1)[j]);
            }
        }
        assert forall|j: int| 0 <= j < k.len() implies (#[trigger] k[j]).player.0 < n by {
            if j < minkan_calls(seats, d, discarder, n - 1).len() {
                assert(k[j] == minkan_calls(seats, d, discarder, n - 1)[j]);
            }
        }
        assert forall|j: int| 0 <= j < p.len() implies (#[trigger] p[j]).player.0 < n by {
            if j < pon_calls(seats, d, discarder, n - 1).len() {
                assert(p[j] == pon_calls(seats, d, discarder, n - 1)[j]);
            }
        }
    }
}

/// Every detected call names a seat of the table.
proof fn lemma_detected_seats(seats: Seq<SeatHand>, d: Tile, discarder: PlayerId)
    requires
        discarder.0 < 4,
    ensures
        forall|j: int| 0 <= j < detect_calls_spec(seats, d, discarder).len() ==> (#[trigger] detect_calls_spec(seats, d, discarder)[j]).player.0 < 4,
{
    lemma_seat_lists(seats, d, discarder, 4);
    let r = ron_calls(seats, d, discarder, 4);
    let k = minkan_calls(seats, d, discarder, 4);
    let p = pon_calls(seats, d, discarder, 4);
    let c = chi_calls(seats, d, discarder);
    let all = detect_calls_spec(seats, d, discarder);
    assert(all == r + k + p + c);
    assert forall|j: int| 0 <= j < all.len() implies (#[trigger] all[j]).player.0 < 4 by {
        if j < r.len() {
            assert(all[j] == r[j]);
        } else if j < r.len() + k.len() {
            assert(all[j] == k[j - r.len()]);
        } else if j < r.len() + k.len() + p.len() {
            assert(all[j] == p[j - r.len() - k.len()]);
        } else {
            assert(all[j] == c[j - r.len() - k.len() - p.len()]);
        }
    }
}

/// The tier of an offered call when answers are awaited: ron first, then
/// open kan, pon and chi.
pub open spec fn call_tier(c: CallType) -> int {
    match c {
        CallType::Ron => 0,
        CallType::Minkan { .. } => 1,
        CallType::Pon { .. } => 2,
        CallType::Chi { .. } => 3,
    }
}

/// The answer takes up a call of the tier.
pub open spec fn answers_tier(r: ResponseAction, tier: int) -> bool {
    ||| tier == 0 && r is Ron
    ||| tier == 1 && r is Minkan
    ||| tier == 2 && r is Pon
    ||| tier == 3 && r is Chi
}

/// The player was offered a call of the tier.
pub open spec fn offered_tier(options: Seq<CallOption>, p: PlayerId, tier: int) -> bool {
    exists|i: int| 0 <= i < options.len() && (#[trigger] options[i]).player == p && call_tier(options[i].call_type) == tier
}

fn tier_exec(c: &CallType) -> (t: u8)
    ensures
        t == call_tier(*c),
{
    match c {
        CallType::Ron => 0,
        CallType::Minkan { .. } => 1,
        CallType::Pon { .. } => 2,
        CallType::Chi { .. } => 3,
    }
}

/// The eligible players, in their order, that were offered a call of the
/// tier: those whose answers are awaited at that tier.
pub fn tier_players(options: &[CallOption], eligible: &[PlayerId], tier: u8) -> (players: Vec<PlayerId>)
    ensures
        players@ == eligible@.filter(|p: PlayerId| offered_tier(options@, p, tier as int)),
{
    let ghost pred = |p: PlayerId| offered_tier(options@, p, tier as int);
    let mut players: Vec<PlayerId> = Vec::new();
    let mut i: usize = 0;
    while i < eligible.len()
        invariant
            i <= eligible@.len(),
            pred == (|p: PlayerId| offered_tier(options@, p, tier as int)),
            players@ == eligible@.take(i as int).filter(pred),
        decreases eligible@.len() - i,
    {
        let p = eligible[i];
        let mut found = false;
        let mut j: usize = 0;
        while j < options.len()
            invariant
                j <= options@.len(),
                found == exists|x: int| 0 <= x < j && (#[trigger] options@[x]).player == p && call_tier(options@[x].call_type) == tier,
            decreases options@.len() - j,
        {
            let o = options[j];
            if o.player.0 == p.0 && tier_exec(&o.call_type) == tier {
                assert(options@[j as int].player == p);
                found = true;
            }
            j += 1;
        }
        proof {
            reveal(Seq::filter);
            assert(eligible@.take(i + 1).drop_last() =~= eligible@.take(i as int));
            assert(eligible@.take(i + 1).last() == p);
        }
        if found {
            players.push(p);
        }
        i += 1;
    }
    assert(eligible@.take(eligible@.len() as int) =~= eligible@);
    players
}

fn answers_tier_exec(r: &ResponseAction, tier: u8) -> (b: bool)
    ensures
        b == answers_tier(*r, tier as int),
{
    match r {
        ResponseAction::Ron => tier == 0,
        ResponseAction::Minkan { .. } => tier == 1,
        ResponseAction::Pon { .. } => tier == 2,
        ResponseAction::Chi { .. } => tier == 3,
        ResponseAction::Pass => false,
    }
}

/// Someone of the tier took up its call: the awaited answers stop there.
#[verifier::loop_isolation(false)]
pub fn tier_taken(responses: &[(PlayerId, ResponseAction)], players: &[PlayerId], tier: u8) -> (b: bool)
    ensures
        b == exists|i: int|
            0 <= i < responses@.len() && players@.contains((#[trigger] responses@[i]).0) && answers_tier(
                responses@[i].1,
                tier as int,
            ),
{
    let mut i: usize = 0;
    while i < responses.len()
        invariant
            i <= responses@.len(),
            forall|x: int|
                0 <= x < i ==> !(players@.contains((#[trigger] responses@[x]).0) && answers_tier(
                    responses@[x].1,
                    tier as int,
                )),
        decreases responses@.len() - i,
    {
        let (p, r) = responses[i];
        if answers_tier_exec(&r, tier) {
            let mut j: usize = 0;
            while j < players.len()
                invariant
                    j <= players@.len(),
                    forall|y: int| 0 <= y < j ==> players@[y] != p,
                decreases players@.len() - j,
            {
                if players[j].0 == p.0 {
                    assert(players@[j as int] == p);
                    assert(players@.contains(responses@[i as int].0));
                    return true;
                }
                j += 1;
            }
        }
        i += 1;
    }
    false
}

/// The first answer of `p` among the first `n` answers.
pub open spec fn first_answer(responses: Seq<(PlayerId, ResponseAction)>, p: PlayerId, n: int) -> Option<ResponseAction>
    decreases n,
{
    if n <= 0 {
        None
    } else {
        match first_answer(responses, p, n - 1) {
            Some(r) => Some(r),
            None => if responses[n - 1].0 == p {
                Some(responses[n - 1].1)
            } else {
                None
            },
        }
    }
}

/// The answer recorded for `p`: its first answer, or passing when it
/// gave none.
pub open spec fn answer_or_pass(responses: Seq<(PlayerId, ResponseAction)>, p: PlayerId) -> ResponseAction {
    match first_answer(responses, p, responses.len() as int) {
        Some(r) => r,
        None => ResponseAction::Pass,
    }
}

fn answer_of_player(responses: &[(PlayerId, ResponseAction)], p: PlayerId) -> (r: ResponseAction)
    ensures
        r == answer_or_pass(responses@, p),
{
    let mut i: usize = 0;
    while i < responses.len()
        invariant
            i <= responses@.len(),
            first_answer(responses@, p, i as int) is None,
        decreases responses@.len() - i,
    {
        let (q, r) = responses[i];
        if q.0 == p.0 {
            proof {
                assert(first_answer(responses@, p, i + 1) == Some(r));
                lemma_first_answer_stays(responses@, p, i + 1, responses@.len() as int);
            }
            return r;
        }
        i += 1;
    }
    ResponseAction::Pass
}

proof fn lemma_first_answer_stays(responses: Seq<(PlayerId, ResponseAction)>, p: PlayerId, n: int, m: int)
    requires
        0 < n <= m,
        first_answer(responses, p, n) is Some,
    ensures
        first_answer(responses, p, m) == first_answer(responses, p, n),
    decreases m - n,
{
    if n < m {
        lemma_first_answer_stays(responses, p, n, m - 1);
    }
}

/// The answers gathered for a discard: each eligible player, in order,
/// with its first answer, passing for those that gave none in time.
pub fn collect_answers(eligible: &[PlayerId], responses: &[(PlayerId, ResponseAction)]) -> (answers: Vec<
    (PlayerId, ResponseAction),
>)
    ensures
        answers@ == eligible@.map_values(|p: PlayerId| (p, answer_or_pass(responses@, p))),
{
    let mut answers: Vec<(PlayerId, ResponseAction)> = Vec::new();
    let mut i: usize = 0;
    while i < eligible.len()
        invariant
            i <= eligible@.len(),
            answers@ == eligible@.take(i as int).map_values(|p: PlayerId| (p, answer_or_pass(responses@, p))),
        decreases eligible@.len() - i,
    {
        let p = eligible[i];
        answers.push((p, answer_of_player(responses, p)));
        assert(eligible@.take(i + 1) =~= eligible@.take(i as int).push(p));
        i += 1;
    }
    assert(eligible@.take(eligible@.len() as int) =~= eligible@);
    answers
}

/// Of two calls by different seats on one discard exactly one ranks
/// above the other; a stronger call wins, and between calls of one
/// strength the seat nearer after the discarder wins.
pub proof fn lemma_call_priority_is_strict(
    p: PlayerId,
    a: ResponseAction,
    q: PlayerId,
    b: ResponseAction,
    discarder: PlayerId,
)
    requires
        p.0 < 4,
        q.0 < 4,
        discarder.0 < 4,
        p != q,
    ensures
        key_above(call_key(p, a, discarder), call_key(q, b, discarder)) != key_above(
            call_key(q, b, discarder),
            call_key(p, a, discarder),
        ),
        call_strength(a) > call_strength(b) ==> key_above(call_key(p, a, discarder), call_key(q, b, discarder)),
        call_strength(a) == call_strength(b) && seats_after(p.0 as int, discarder.0 as int) < seats_after(
            q.0 as int,
            discarder.0 as int,
        ) ==> key_above(call_key(p, a, discarder), call_key(q, b, discarder)),
{
    assert(seats_after(p.0 as int, discarder.0 as int) != seats_after(q.0 as int, discarder.0 as int));
}

/// The call that is made ranks at least as high as every call among the
/// answers, and is one of them; no call is made only when nobody called.
pub proof fn lemma_held_call_is_highest(answers: Seq<CallAnswer>, n: int, discarder: PlayerId)
    requires
        0 <= n <= answers.len(),
    ensures
        held_call(answers, n, discarder) matches Some((p, a)) ==> {
            &&& is_call(a)
            &&& exists|i: int| 0 <= i < n && (#[trigger] answers[i]).player == p && answers[i].action == a
            &&& forall|i: int|
                0 <= i < n && is_call((#[trigger] answers[i]).action) ==> !key_above(
                    call_key(answers[i].player, answers[i].action, discarder),
                    call_key(p, a, discarder),
                )
        },
        held_call(answers, n, discarder) is None ==> forall|i: int|
            0 <= i < n ==> !is_call((#[trigger] answers[i]).action),
    decreases n,
{
    if n > 0 {
        lemma_held_call_is_highest(answers, n - 1, discarder);
        let held = held_call(answers, n - 1, discarder);
        if let Some((p, a)) = held_call(answers, n, discarder) {
            if held != held_call(answers, n, discarder) {
                assert(answers[n - 1].player == p && answers[n - 1].action == a);
            }
        }
    }
}

/// The winners by ron all declared it, none is the discarder, and they
/// come in turn order after the discarder; every seat that declared ron
/// wins unless `max_winners` nearer seats already do.
pub proof fn lemma_ron_winners_in_turn_order(answers: Seq<CallAnswer>, discarder: PlayerId, max_winners: int)
    requires
        discarder.0 < 4,
        max_winners >= 1,
    ensures
        forall|k: int|
            0 <= k < ron_winners(answers, discarder, max_winners).len() ==> declares_ron(
                answers,
                #[trigger] ron_winners(answers, discarder, max_winners)[k],
            ) && ron_winners(answers, discarder, max_winners)[k] != discarder,
        forall|k: int, l: int|
            0 <= k < l < ron_winners(answers, discarder, max_winners).len() ==> seats_after(
                (#[trigger] ron_winners(answers, discarder, max_winners)[k]).0 as int,
                discarder.0 as int,
            ) < seats_after(
                (#[trigger] ron_winners(answers, discarder, max_winners)[l]).0 as int,
                discarder.0 as int,
            ),
        ron_winners(answers, discarder, max_winners).len() <= max_winners,
        forall|n: int|
            1 <= n <= 3 && declares_ron(answers, #[trigger] seat_after(discarder, n))
                && ron_winners(answers, discarder, max_winners).len() < max_winners ==> ron_winners(
                answers,
                discarder,
                max_winners,
            ).contains(seat_after(discarder, n)),
{
    lemma_ron_order(answers, discarder, 3);
}

proof fn lemma_ron_order(answers: Seq<CallAnswer>, discarder: PlayerId, n: int)
    requires
        discarder.0 < 4,
        0 <= n <= 3,
    ensures
        forall|k: int|
            0 <= k < ron_order(answers, discarder, n).len() ==> declares_ron(
                answers,
                #[trigger] ron_order(answers, discarder, n)[k],
            ) && 1 <= seats_after(ron_order(answers, discarder, n)[k].0 as int, discarder.0 as int) <= n
                && ron_order(answers, discarder, n)[k].0 < 4,
        forall|k: int, l: int|
            0 <= k < l < ron_order(answers, discarder, n).len() ==> seats_after(
                (#[trigger] ron_order(answers, discarder, n)[k]).0 as int,
                discarder.0 as int,
            ) < seats_after((#[trigger] ron_order(answers, discarder, n)[l]).0 as int, discarder.0 as int),
        forall|m: int|
            1 <= m <= n && declares_ron(answers, #[trigger] seat_after(discarder, m)) ==> ron_order(
                answers,
                discarder,
                n,
            ).contains(seat_after(discarder, m)),
        ron_order(answers, discarder, n).len() <= n,
    decreases n,
{
    if n > 0 {
        lemma_ron_order(answers, discarder, n - 1);
        let prev = ron_order(answers, discarder, n - 1);
        let cur = ron_order(answers, discarder, n);
        let c = seat_after(discarder, n);
        assert(seats_after(c.0 as int, discarder.0 as int) == n);
        if declares_ron(answers, c) {
            assert(cur == prev.push(c));
            assert forall|m: int|
                1 <= m <= n && declares_ron(answers, #[trigger] seat_after(discarder, m)) implies cur.contains(
                seat_after(discarder, m),
            ) by {
                if m < n {
                    let k = choose|k: int| 0 <= k < prev.len() && prev[k] == seat_after(discarder, m);
                    assert(cur[k] == prev[k]);
                } else {
                    assert(cur[prev.len() as int] == c);
                }
            }
        }
    }
}

} // verus!
