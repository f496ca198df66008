use vstd::prelude::*;
use crate::calls::ResponseAction;
use crate::execution::{call_hand_tiles, call_meld_kind};
use crate::player::PlayerId;
use crate::response::{
    discard_furiten_spec, furiten_after_pass_spec, has_open_triplet, kinds_open, pao_after_call_spec,
    record_response_pass, shows_open_triplet, update_discard_furiten, update_pao_after_open_call, Furiten,
};
use crate::round_end::{
    discard_views, draw_payment, nagashi_below, nagashi_winner_spec, resolve_exhaustive_draw, tenpai_seats,
};
use crate::tile::{Meld, MeldKind, Tile, TileType};

verus! {

/// The phase of a round: a seat is to draw; a seat is to move, holding the
/// tile it drew, if any; a discard waits for answers; an open kan waits
/// for a robbing ron; the round is over.
#[derive(Debug, Clone, Copy, PartialEq, Eq, Structural)]
pub enum TurnPhase {
    Draw { player: PlayerId },
    Action { player: PlayerId, drawn: Option<Tile> },
    Response { discarder: PlayerId, tile: Tile },
    Chankan { player: PlayerId, tile: Tile },
    RoundOver,
}

/// What the log of a round records: each step that changed the state.
#[derive(Debug, Clone, Copy)]
pub enum GameEvent {
    /// A seat drew a tile from the wall.
    Drew { player: PlayerId, tile: Tile },
    /// A seat put out a tile.
    Discarded { player: PlayerId, tile: Tile },
    /// Every seat let the discard go.
    Passed { discarder: PlayerId },
    /// A seat answered the discard: a call, or a ron whose win check failed.
    Called { player: PlayerId, action: ResponseAction, from: PlayerId },
    /// A seat won on the discard, with the point changes of its win.
    Won { player: PlayerId, from: PlayerId, changes: [i32; 4] },
    /// The wall ran out: the point changes of the exhaustive draw.
    ExhaustiveDraw { payments: [i32; 4] },
}

/// Why a step of the round is refused.
#[derive(Debug, Clone, Copy, PartialEq, Eq, Structural)]
pub enum GameError {
    /// The step does not belong to the current phase.
    WrongPhase,
    /// The wall is empty.
    WallExhausted,
    /// The kind was just called and may not be discarded at once.
    Kuikae,
    /// A seat in riichi may only discard the tile it drew.
    RiichiDrawnOnly,
    /// The tile is not in the hand.
    TileNotInHand(Tile),
    /// A hand holds at most 14 tiles.
    HandFull,
    /// A seat makes at most four calls.
    TooManyCalls,
    /// Four kans are already on the table.
    KanLimit,
    /// The answer is not one this step carries out.
    NotACall,
    /// The point changes do not fit the scores.
    PointsOverflow,
}

/// Why a recorded event is not replayed.
#[derive(Debug, Clone, Copy, PartialEq, Eq, Structural)]
pub enum ReplayError {
    /// The event does not fit the state (phase, seat or tile).
    Mismatch,
    /// The step the event records is refused.
    Refused(GameError),
}

/// The state of a round: each seat's concealed tiles, calls, discards,
/// the kinds it has discarded, points, riichi and furiten; the phase, the
/// wall, the kinds each seat may not discard right after a call, the seat
/// liable for each seat's hand, the sticks on the table, the dealer, the
/// nagashi mangan rule and the log.
pub struct GameState {
    pub hands: [Vec<Tile>; 4],
    pub melds: [Vec<Meld>; 4],
    pub discards: [Vec<Tile>; 4],
    pub discarded_kinds: [Vec<TileType>; 4],
    pub points: [i32; 4],
    pub is_riichi: [bool; 4],
    pub furiten: [Furiten; 4],
    pub phase: TurnPhase,
    pub wall: Vec<Tile>,
    pub kuikae: [Vec<TileType>; 4],
    pub pao: [Option<usize>; 4],
    pub riichi_sticks: u32,
    pub dealer: usize,
    pub nagashi_mangan: bool,
    pub events: Vec<GameEvent>,
}

/// A call as a value: its kind, tiles and the seat it was called from.
pub struct MeldV {
    pub kind: MeldKind,
    pub tiles: Seq<Tile>,
    pub from_player: Option<PlayerId>,
}

pub open spec fn meld_v(m: Meld) -> MeldV {
    MeldV { kind: m.kind, tiles: m.tiles@, from_player: m.from_player }
}

/// The state of a round as values (see `GameState`).
pub struct GameView {
    pub hands: Seq<Seq<Tile>>,
    pub melds: Seq<Seq<MeldV>>,
    pub discards: Seq<Seq<Tile>>,
    pub discarded_kinds: Seq<Seq<TileType>>,
    pub points: Seq<i32>,
    pub is_riichi: Seq<bool>,
    pub furiten: Seq<Furiten>,
    pub phase: TurnPhase,
    pub wall: Seq<Tile>,
    pub kuikae: Seq<Seq<TileType>>,
    pub pao: Seq<Option<usize>>,
    pub riichi_sticks: u32,
    pub dealer: usize,
    pub nagashi_mangan: bool,
    pub events: Seq<GameEvent>,
}

impl View for GameState {
    type V = GameView;

    open spec fn view(&self) -> GameView {
        GameView {
            hands: Seq::new(4, |i: int| self.hands[i]@),
            melds: Seq::new(4, |i: int| self.melds[i]@.map_values(|m: Meld| meld_v(m))),
            discards: Seq::new(4, |i: int| self.discards[i]@),
            discarded_kinds: Seq::new(4, |i: int| self.discarded_kinds[i]@),
            points: self.points@,
            is_riichi: self.is_riichi@,
            furiten: self.furiten@,
            phase: self.phase,
            wall: self.wall@,
            kuikae: Seq::new(4, |i: int| self.kuikae[i]@),
            pao: self.pao@,
            riichi_sticks: self.riichi_sticks,
            dealer: self.dealer,
            nagashi_mangan: self.nagashi_mangan,
            events: self.events@,
        }
    }
}

/// The seat of a phase, where it names one.
pub open spec fn phase_seats_wf(p: TurnPhase) -> bool {
    match p {
        TurnPhase::Draw { player } => player.0 < 4,
        TurnPhase::Action { player, drawn } => player.0 < 4 && (drawn matches Some(t) ==> t.wf()),
        TurnPhase::Response { discarder, tile } => discarder.0 < 4 && tile.wf(),
        TurnPhase::Chankan { player, tile } => player.0 < 4 && tile.wf(),
        TurnPhase::RoundOver => true,
    }
}

/// A well-formed round: four seats, each hand at most 14 valid tiles, at
/// most four calls a seat, valid tiles in the wall, valid seats in the
/// phase and the dealer.
pub open spec fn game_wf(v: GameView) -> bool {
    &&& v.hands.len() == 4 && v.melds.len() == 4 && v.discards.len() == 4 && v.discarded_kinds.len() == 4
    &&& v.points.len() == 4 && v.is_riichi.len() == 4 && v.furiten.len() == 4 && v.kuikae.len() == 4
    &&& v.pao.len() == 4
    &&& forall|s: int| 0 <= s < 4 ==> (#[trigger] v.hands[s]).len() <= 14
    &&& forall|s: int, i: int| 0 <= s < 4 && 0 <= i < v.hands[s].len() ==> (#[trigger] v.hands[s][i]).wf()
    &&& forall|s: int| 0 <= s < 4 ==> (#[trigger] v.melds[s]).len() <= 4
    &&& forall|i: int| 0 <= i < v.wall.len() ==> (#[trigger] v.wall[i]).wf()
    &&& v.wall.len() < 1000
    &&& phase_seats_wf(v.phase)
    &&& v.dealer < 4
}

impl GameState {
    pub open spec fn wf(&self) -> bool {
        game_wf(self@)
    }
}

/// The seat after `p` in turn order.
pub open spec fn next_seat(p: PlayerId) -> PlayerId {
    PlayerId(((p.0 + 1) % 4) as usize)
}

/// The position of the first copy of `t` in `s`.
pub open spec fn first_index(s: Seq<Tile>, t: Tile, i: int) -> Option<int>
    decreases s.len() - i,
{
    if i < 0 || i >= s.len() {
        None
    } else if s[i] == t {
        Some(i)
    } else {
        first_index(s, t, i + 1)
    }
}

/// The first copy found lies in the sequence and is `t`.
pub proof fn lemma_first_index(s: Seq<Tile>, t: Tile, i: int)
    requires
        0 <= i,
    ensures
        first_index(s, t, i) matches Some(q) ==> i <= q < s.len() && s[q] == t,
        first_index(s, t, i) is None ==> forall|x: int| i <= x < s.len() ==> s[x] != t,
    decreases s.len() - i,
{
    if i < s.len() && s[i] != t {
        lemma_first_index(s, t, i + 1);
    }
}

/// `s` without its first copy of `t`, if any.
pub open spec fn remove_first(s: Seq<Tile>, t: Tile) -> Seq<Tile> {
    match first_index(s, t, 0) {
        Some(i) => s.remove(i),
        None => s,
    }
}

/// Takes the tiles `ts` out of the hand one by one, each its first copy,
/// stopping at the first one that is missing: what is left, and the
/// missing tile if any.
pub open spec fn take_seq(hand: Seq<Tile>, ts: Seq<Tile>) -> (Seq<Tile>, Option<Tile>)
    decreases ts.len(),
{
    if ts.len() == 0 {
        (hand, None)
    } else if hand.contains(ts[0]) {
        take_seq(remove_first(hand, ts[0]), ts.drop_first())
    } else {
        (hand, Some(ts[0]))
    }
}

/// The hand with the drawn tile, if any, appended.
pub open spec fn with_drawn_seq(hand: Seq<Tile>, drawn: Option<Tile>) -> Seq<Tile> {
    match drawn {
        Some(d) => hand.push(d),
        None => hand,
    }
}

/// The kans among a seat's calls.
pub open spec fn kans_v(ms: Seq<MeldV>, n: int) -> int
    decreases n,
{
    if n <= 0 {
        0
    } else {
        kans_v(ms, n - 1) + if ms[n - 1].kind is Minkan || ms[n - 1].kind is Kakan || ms[n - 1].kind is Ankan {
            1int
        } else {
            0int
        }
    }
}

/// The kans at the table.
pub open spec fn kan_total(melds: Seq<Seq<MeldV>>) -> int {
    kans_v(melds[0], melds[0].len() as int) + kans_v(melds[1], melds[1].len() as int) + kans_v(
        melds[2],
        melds[2].len() as int,
    ) + kans_v(melds[3], melds[3].len() as int)
}

/// Four kans abort the round when they belong to more than one seat.
pub open spec fn four_kan_abort(melds: Seq<Seq<MeldV>>) -> bool {
    kan_total(melds) >= 4 && exists|a: int, b: int|
        0 <= a < b < 4 && kans_v(melds[a], melds[a].len() as int) > 0 && kans_v(melds[b], melds[b].len() as int) > 0
}

/// The calls show kind `k` as an open triplet (see `has_open_triplet`).
pub open spec fn open_triplet_v(ms: Seq<MeldV>, k: int) -> bool {
    exists|i: int|
        0 <= i < ms.len() && (ms[i].kind is Pon || ms[i].kind is Minkan) && exists|j: int|
            0 <= j < ms[i].tiles.len() && (#[trigger] ms[i].tiles[j]).spec_tile_type().0 == k
}

/// The liability after an open call, over call values (see
/// `pao_after_call_spec`).
pub open spec fn pao_v(ms: Seq<MeldV>, from: PlayerId, called: Tile, current: Option<usize>) -> Option<usize> {
    let t = called.spec_tile_type();
    if ((forall|k: int| 31 <= k < 34 ==> #[trigger] open_triplet_v(ms, k)) && t.spec_is_dragon()) || ((forall|
        k: int,
    | 27 <= k < 31 ==> #[trigger] open_triplet_v(ms, k)) && t.spec_is_wind()) {
        Some(from.0)
    } else {
        current
    }
}

/// A seat's furiten flags once its discards are checked.
pub open spec fn checked_furiten(v: GameView, s: int, f: Furiten) -> Furiten {
    discard_furiten_spec(f, v.hands[s], v.melds[s].len() as int, v.discarded_kinds[s])
}

/// The furiten flags after every seat let `tile` of `discarder` go: the
/// others raise theirs when they wait on it, then every seat's discards are
/// checked.
pub open spec fn furiten_after_window(v: GameView, discarder: PlayerId, tile: Tile) -> Seq<Furiten> {
    Seq::new(
        4,
        |s: int|
            checked_furiten(
                v,
                s,
                if s == discarder.0 {
                    v.furiten[s]
                } else {
                    furiten_after_pass_spec(v.furiten[s], v.hands[s], v.melds[s].len() as int, v.is_riichi[s], tile)
                },
            ),
    )
}

/// Every seat's discards checked again.
pub open spec fn furiten_checked_all(v: GameView) -> Seq<Furiten> {
    Seq::new(4, |s: int| checked_furiten(v, s, v.furiten[s]))
}

/// The scores with the changes added, when each fits.
pub open spec fn points_fit(points: Seq<i32>, changes: Seq<i32>) -> bool {
    forall|i: int| 0 <= i < 4 ==> i32::MIN <= #[trigger] points[i] + changes[i] <= i32::MAX
}

pub open spec fn add_points(points: Seq<i32>, changes: Seq<i32>) -> Seq<i32> {
    Seq::new(4, |i: int| (points[i] + changes[i]) as i32)
}

/// The seats whose discards another seat called.
pub open spec fn called_from_v(melds: Seq<Seq<MeldV>>) -> Seq<bool> {
    Seq::new(
        4,
        |s: int|
            exists|a: int, j: int|
                0 <= a < 4 && 0 <= j < melds[a].len() && (#[trigger] melds[a][j]).from_player == Some(
                    PlayerId(s as usize),
                ),
    )
}

/// The payments of an exhaustive draw on the state (see `draw_payment`).
pub open spec fn draw_payments_v(v: GameView) -> Seq<i32> {
    Seq::new(
        4,
        |s: int|
            draw_payment(
                Seq::new(4, |x: int| crate::declaration::waiting_kinds(v.hands[x], v.melds[x].len() as int).len() > 0),
                nagashi_winner_spec(v.nagashi_mangan, nagashi_below(v.discards, called_from_v(v.melds), 4)),
                v.dealer as int,
                s,
            ) as i32,
    )
}

/// Drawing: only in the draw phase. An empty wall ends the round in an
/// exhaustive draw, which is paid and logged (refused, with nothing
/// changed, when the payments do not fit the scores); otherwise the seat
/// takes the first tile of the wall, its discards are checked for furiten,
/// and it is to move.
pub open spec fn draw_spec(v: GameView) -> (Result<Tile, GameError>, GameView) {
    match v.phase {
        TurnPhase::Draw { player } => if v.wall.len() == 0 {
            let pay = draw_payments_v(v);
            if points_fit(v.points, pay) {
                (
                    Err(GameError::WallExhausted),
                    GameView {
                        points: add_points(v.points, pay),
                        phase: TurnPhase::RoundOver,
                        events: v.events.push(GameEvent::ExhaustiveDraw { payments: [pay[0], pay[1], pay[2], pay[3]] }),
                        ..v
                    },
                )
            } else {
                (Err(GameError::PointsOverflow), v)
            }
        } else {
            let t = v.wall[0];
            let p = player.0 as int;
            (
                Ok(t),
                GameView {
                    wall: v.wall.drop_first(),
                    furiten: v.furiten.update(p, checked_furiten(v, p, v.furiten[p])),
                    phase: TurnPhase::Action { player, drawn: Some(t) },
                    events: v.events.push(GameEvent::Drew { player, tile: t }),
                    ..v
                },
            )
        },
        _ => (Err(GameError::WrongPhase), v),
    }
}

/// Discarding `tile`: only by the seat to move. Refused for a kind just
/// called, and in riichi for any tile but the drawn one; the drawn tile
/// leaves without touching the hand; else the drawn tile joins the hand
/// and the first copy of `tile` leaves it, refused when there is none. The
/// kind is recorded among the seat's discarded kinds, its furiten of the
/// turn clears, its call restriction ends, and the discard waits for
/// answers.
pub open spec fn discard_spec(v: GameView, tile: Tile) -> (Result<(), GameError>, GameView) {
    match v.phase {
        TurnPhase::Action { player, drawn } => {
            let p = player.0 as int;
            let full = with_drawn_seq(v.hands[p], drawn);
            if v.kuikae[p].contains(tile.spec_tile_type()) {
                (Err(GameError::Kuikae), v)
            } else if v.is_riichi[p] && drawn is Some && drawn != Some(tile) {
                (Err(GameError::RiichiDrawnOnly), v)
            } else if drawn != Some(tile) && !full.contains(tile) {
                (Err(GameError::TileNotInHand(tile)), v)
            } else {
                (
                    Ok(()),
                    GameView {
                        hands: v.hands.update(p, if drawn == Some(tile) {
                            v.hands[p]
                        } else {
                            remove_first(full, tile)
                        }),
                        discarded_kinds: v.discarded_kinds.update(p, v.discarded_kinds[p].push(tile.spec_tile_type())),
                        furiten: v.furiten.update(p, Furiten { round: false, ..v.furiten[p] }),
                        kuikae: v.kuikae.update(p, Seq::empty()),
                        phase: TurnPhase::Response { discarder: player, tile },
                        events: v.events.push(GameEvent::Discarded { player, tile }),
                        ..v
                    },
                )
            }
        },
        _ => (Err(GameError::WrongPhase), v),
    }
}

/// After a pass or a failed ron: the discard joins the discarder's river,
/// the furiten flags are `f`, and the next seat is to draw.
pub open spec fn discard_stays(v: GameView, discarder: PlayerId, tile: Tile, f: Seq<Furiten>) -> GameView {
    GameView {
        discards: v.discards.update(discarder.0 as int, v.discards[discarder.0 as int].push(tile)),
        furiten: f,
        phase: TurnPhase::Draw { player: next_seat(discarder) },
        ..v
    }
}

/// Carrying out `player`'s answer to the discard `tile` of `discarder`
/// (`win` is the point changes of its win check when it declares ron):
/// - a pass: the tile joins the river, the other seats waiting on it raise
///   furiten (riichi or of the turn), every seat's discards are checked,
///   and the next seat draws;
/// - a ron with a win: refused when the hand is full or the changes do not
///   fit the scores; else the tile joins the hand, the changes are paid,
///   the sticks go, and the round is over; a ron whose win check failed
///   leaves the tile in the river, checks the discards and moves on;
/// - a pon, chi or open kan: refused for a fifth call, for an open kan
///   with four kans on the table, and at the first missing hand tile (the
///   tiles before it already out of the hand); else the call holds the hand
///   tiles and then the called tile, a pon or chi makes the seat move next
///   with the called kind forbidden and its discards checked, an open kan
///   waits for a robbing ron, a pon or open kan updates the liability, and
///   four kans of more than one seat end the round.
pub open spec fn response_spec(
    v: GameView,
    player: PlayerId,
    action: ResponseAction,
    tile: Tile,
    discarder: PlayerId,
    win: Option<[i32; 4]>,
) -> (Result<Seq<GameEvent>, GameError>, GameView) {
    let p = player.0 as int;
    match action {
        ResponseAction::Pass => {
            let e = GameEvent::Passed { discarder };
            let w = discard_stays(v, discarder, tile, furiten_after_window(v, discarder, tile));
            (Ok(seq![e]), GameView { events: v.events.push(e), ..w })
        },
        ResponseAction::Ron => match win {
            Some(changes) => if v.hands[p].len() >= 14 {
                (Err(GameError::HandFull), v)
            } else if !points_fit(v.points, changes@) {
                (Err(GameError::PointsOverflow), v)
            } else {
                let e = GameEvent::Won { player, from: discarder, changes };
                (
                    Ok(seq![e]),
                    GameView {
                        hands: v.hands.update(p, v.hands[p].push(tile)),
                        points: add_points(v.points, changes@),
                        riichi_sticks: 0,
                        phase: TurnPhase::RoundOver,
                        events: v.events.push(e),
                        ..v
                    },
                )
            },
            None => {
                let e = GameEvent::Called { player, action, from: discarder };
                let w = discard_stays(v, discarder, tile, furiten_checked_all(v));
                (Ok(seq![e]), GameView { events: v.events.push(e), ..w })
            },
        },
        _ => {
            let ts = call_hand_tiles(action);
            let taken = take_seq(v.hands[p], ts);
            if v.melds[p].len() >= 4 {
                (Err(GameError::TooManyCalls), v)
            } else if action is Minkan && kan_total(v.melds) >= 4 {
                (Err(GameError::KanLimit), v)
            } else if taken.1 is Some {
                (Err(GameError::TileNotInHand(taken.1->0)), GameView { hands: v.hands.update(p, taken.0), ..v })
            } else {
                let calls = v.melds[p].push(
                    MeldV { kind: call_meld_kind(action), tiles: ts.push(tile), from_player: Some(discarder) },
                );
                let e = GameEvent::Called { player, action, from: discarder };
                let after = GameView {
                    hands: v.hands.update(p, taken.0),
                    melds: v.melds.update(p, calls),
                    events: v.events.push(e),
                    ..v
                };
                if action is Minkan {
                    (
                        Ok(seq![e]),
                        GameView {
                            pao: v.pao.update(p, pao_v(calls, discarder, tile, v.pao[p])),
                            phase: if four_kan_abort(after.melds) {
                                TurnPhase::RoundOver
                            } else {
                                TurnPhase::Chankan { player, tile }
                            },
                            ..after
                        },
                    )
                } else {
                    (
                        Ok(seq![e]),
                        GameView {
                            furiten: v.furiten.update(p, checked_furiten(after, p, v.furiten[p])),
                            kuikae: v.kuikae.update(p, seq![tile.spec_tile_type()]),
                            pao: if action is Pon {
                                v.pao.update(p, pao_v(calls, discarder, tile, v.pao[p]))
                            } else {
                                v.pao
                            },
                            phase: TurnPhase::Action { player, drawn: None },
                            ..after
                        },
                    )
                }
            }
        },
    }
}

/// The seat to move, in the action phase.
pub open spec fn actor(p: TurnPhase) -> Option<PlayerId> {
    match p {
        TurnPhase::Action { player, .. } => Some(player),
        _ => None,
    }
}

/// The discarder and the discard, in the response phase.
pub open spec fn open_discard(p: TurnPhase) -> Option<(PlayerId, Tile)> {
    match p {
        TurnPhase::Response { discarder, tile } => Some((discarder, tile)),
        _ => None,
    }
}

/// A step as replay takes it: the new state when it succeeds; the old
/// state and the refusal when it does not.
pub open spec fn replayed<T>(v: GameView, step: (Result<T, GameError>, GameView)) -> (Result<(), ReplayError>, GameView) {
    match step.0 {
        Ok(_) => (Ok(()), step.1),
        Err(e) => (Err(ReplayError::Refused(e)), v),
    }
}

/// Replaying one logged event: the step it records, when it fits the
/// state (the phase, the seat, the drawn tile, the payments); a refused
/// step, or an event that does not fit, leaves the state as it was.
pub open spec fn replay_spec(v: GameView, e: GameEvent) -> (Result<(), ReplayError>, GameView) {
    let mismatch = (Err(ReplayError::Mismatch), v);
    match e {
        GameEvent::Drew { player, tile } => if v.phase == (TurnPhase::Draw { player }) && v.wall.len() > 0
            && v.wall[0] == tile {
            replayed(v, draw_spec(v))
        } else {
            mismatch
        },
        GameEvent::ExhaustiveDraw { payments } => if v.phase is Draw && v.wall.len() == 0 && payments@
            == draw_payments_v(v) {
            match draw_spec(v).0 {
                Err(GameError::WallExhausted) => (Ok(()), draw_spec(v).1),
                _ => replayed(v, draw_spec(v)),
            }
        } else {
            mismatch
        },
        GameEvent::Discarded { player, tile } => if actor(v.phase) == Some(player) {
            replayed(v, discard_spec(v, tile))
        } else {
            mismatch
        },
        GameEvent::Passed { discarder } => match open_discard(v.phase) {
            Some((d, tile)) => if d == discarder {
                replayed(v, response_spec(v, discarder, ResponseAction::Pass, tile, d, None))
            } else {
                mismatch
            },
            None => mismatch,
        },
        GameEvent::Called { player, action, from } => match open_discard(v.phase) {
            Some((d, tile)) => if d == from && player.0 < 4 && !(action is Pass) {
                replayed(v, response_spec(v, player, action, tile, d, None))
            } else {
                mismatch
            },
            None => mismatch,
        },
        GameEvent::Won { player, from, changes } => match open_discard(v.phase) {
            Some((d, tile)) => if d == from && player.0 < 4 {
                replayed(v, response_spec(v, player, ResponseAction::Ron, tile, d, Some(changes)))
            } else {
                mismatch
            },
            None => mismatch,
        },
    }
}

/// Replaying a log event by event; none once an event is not replayed.
pub open spec fn replay_all(v: GameView, es: Seq<GameEvent>) -> Option<GameView>
    decreases es.len(),
{
    if es.len() == 0 {
        Some(v)
    } else {
        match replay_spec(v, es[0]) {
            (Ok(()), w) => replay_all(w, es.drop_first()),
            _ => None,
        }
    }
}

/// A move of live play.
#[derive(Debug, Clone, Copy)]
pub enum Move {
    /// The seat to draw draws (the wall may run out).
    Draw,
    /// The seat to move discards the tile.
    Discard(Tile),
    /// A seat answers the open discard; `win` is its win check on a ron.
    Respond { player: PlayerId, action: ResponseAction, win: Option<[i32; 4]> },
}

/// The state after a live move, none when the move is refused; running out
/// of wall counts as a move made.
pub open spec fn play_spec(v: GameView, m: Move) -> Option<GameView> {
    match m {
        Move::Draw => match draw_spec(v).0 {
            Ok(_) => Some(draw_spec(v).1),
            Err(GameError::WallExhausted) => Some(draw_spec(v).1),
            _ => None,
        },
        Move::Discard(t) => if discard_spec(v, t).0 is Ok {
            Some(discard_spec(v, t).1)
        } else {
            None
        },
        Move::Respond { player, action, win } => match open_discard(v.phase) {
            Some((d, tile)) => if player.0 < 4 && response_spec(v, player, action, tile, d, win).0 is Ok {
                Some(response_spec(v, player, action, tile, d, win).1)
            } else {
                None
            },
            None => None,
        },
    }
}

/// Playing moves one after another; none once one is refused.
pub open spec fn play_all(v: GameView, ms: Seq<Move>) -> Option<GameView>
    decreases ms.len(),
{
    if ms.len() == 0 {
        Some(v)
    } else {
        match play_spec(v, ms[0]) {
            Some(w) => play_all(w, ms.drop_first()),
            None => None,
        }
    }
}

/// Each live move logs one event, and replaying that event on the state
/// before the move gives the state after it.
pub proof fn lemma_replay_one(v: GameView, m: Move)
    requires
        play_spec(v, m) is Some,
    ensures
        ({
            let w = play_spec(v, m)->0;
            &&& w.events.len() == v.events.len() + 1
            &&& w.events.take(v.events.len() as int) == v.events
            &&& replay_spec(v, w.events.last()) == (Ok::<(), ReplayError>(()), w)
        }),
{
    let w = play_spec(v, m)->0;
    match m {
        Move::Draw => {
            assert(w.events.take(v.events.len() as int) =~= v.events);
            if v.wall.len() == 0 {
                let pay = draw_payments_v(v);
                let arr = [pay[0], pay[1], pay[2], pay[3]];
                assert(arr@ =~= pay);
            }
        },
        Move::Discard(t) => {
            assert(w.events.take(v.events.len() as int) =~= v.events);
        },
        Move::Respond { player, action, win } => {
            let (d, tile) = open_discard(v.phase)->0;
            assert(w.events.take(v.events.len() as int) =~= v.events);
            match action {
                ResponseAction::Pass => {
                    assert(response_spec(v, d, ResponseAction::Pass, tile, d, None) == response_spec(
                        v,
                        player,
                        action,
                        tile,
                        d,
                        win,
                    ));
                },
                ResponseAction::Ron => {},
                _ => {
                    assert(response_spec(v, player, action, tile, d, None) == response_spec(
                        v,
                        player,
                        action,
                        tile,
                        d,
                        win,
                    ));
                },
            }
        },
    }
}

/// Replaying a round's own log from the state it started in gives the
/// state live play reached: the log determines the round.
pub proof fn lemma_replay_reproduces_play(v: GameView, ms: Seq<Move>)
    requires
        play_all(v, ms) is Some,
    ensures
        play_all(v, ms)->0.events.len() >= v.events.len(),
        play_all(v, ms)->0.events.take(v.events.len() as int) == v.events,
        replay_all(v, play_all(v, ms)->0.events.skip(v.events.len() as int)) == play_all(v, ms),
    decreases ms.len(),
{
    if ms.len() == 0 {
        assert(v.events.skip(v.events.len() as int) =~= Seq::<GameEvent>::empty());
        assert(v.events.take(v.events.len() as int) =~= v.events);
    } else {
        lemma_replay_one(v, ms[0]);
        let w1 = play_spec(v, ms[0])->0;
        lemma_replay_reproduces_play(w1, ms.drop_first());
        let w = play_all(v, ms)->0;
        let n = v.events.len() as int;
        assert(w.events.take(n) =~= v.events) by {
            assert(w.events.take(n) =~= w.events.take(n + 1).take(n));
        }
        let es = w.events.skip(n);
        assert(es[0] == w1.events.last()) by {
            assert(w.events[n] == w.events.take(n + 1)[n]);
        }
        assert(es.drop_first() =~= w.events.skip(n + 1));
    }
}

/// The thirteen tiles dealt to seat `s` from the front of the wall: three
/// rounds of four tiles each, seats in order, then one more each.
pub open spec fn dealt(wall: Seq<Tile>, s: int) -> Seq<Tile> {
    wall.subrange(4 * s, 4 * s + 4) + wall.subrange(16 + 4 * s, 20 + 4 * s) + wall.subrange(32 + 4 * s, 36 + 4 * s)
        + seq![wall[48 + s]]
}

/// Taking out tiles keeps the rest of the hand: no longer, and of valid
/// tiles when the hand was.
pub proof fn lemma_take_seq_keeps(hand: Seq<Tile>, ts: Seq<Tile>)
    requires
        forall|i: int| 0 <= i < hand.len() ==> (#[trigger] hand[i]).wf(),
    ensures
        take_seq(hand, ts).0.len() <= hand.len(),
        forall|i: int| 0 <= i < take_seq(hand, ts).0.len() ==> (#[trigger] take_seq(hand, ts).0[i]).wf(),
    decreases ts.len(),
{
    if ts.len() > 0 && hand.contains(ts[0]) {
        lemma_first_index(hand, ts[0], 0);
        let q = first_index(hand, ts[0], 0)->0;
        let rest = remove_first(hand, ts[0]);
        assert forall|i: int| 0 <= i < rest.len() implies (#[trigger] rest[i]).wf() by {
            if i < q {
                assert(rest[i] == hand[i]);
            } else {
                assert(rest[i] == hand[i + 1]);
            }
        }
        lemma_take_seq_keeps(rest, ts.drop_first());
    }
}

/// The liability over calls and over call values agree.
pub proof fn lemma_pao_v(melds: Seq<Meld>, from: PlayerId, called: Tile, current: Option<usize>)
    ensures
        pao_after_call_spec(melds, from, called, current) == pao_v(
            melds.map_values(|m: Meld| meld_v(m)),
            from,
            called,
            current,
        ),
{
    let ms = melds.map_values(|m: Meld| meld_v(m));
    assert forall|k: int| has_open_triplet(melds, k) == open_triplet_v(ms, k) by {
        if has_open_triplet(melds, k) {
            let i = choose|i: int| 0 <= i < melds.len() && shows_open_triplet(#[trigger] melds[i], k);
            let j = choose|j: int| 0 <= j < melds[i].tiles@.len() && (#[trigger] melds[i].tiles@[j]).spec_tile_type().0 == k;
            assert(ms[i].tiles[j] == melds[i].tiles@[j]);
        }
        if open_triplet_v(ms, k) {
            let i = choose|i: int|
                0 <= i < ms.len() && (ms[i].kind is Pon || ms[i].kind is Minkan) && exists|j: int|
                    0 <= j < ms[i].tiles.len() && (#[trigger] ms[i].tiles[j]).spec_tile_type().0 == k;
            let j = choose|j: int| 0 <= j < ms[i].tiles.len() && (#[trigger] ms[i].tiles[j]).spec_tile_type().0 == k;
            assert(melds[i].tiles@[j] == ms[i].tiles[j]);
            assert(shows_open_triplet(melds[i], k));
        }
    }
    assert(kinds_open(melds, 31, 34) == (forall|k: int| 31 <= k < 34 ==> #[trigger] open_triplet_v(ms, k)));
    assert(kinds_open(melds, 27, 31) == (forall|k: int| 27 <= k < 31 ==> #[trigger] open_triplet_v(ms, k)));
}

fn kans_exec(ms: &Vec<Meld>) -> (n: usize)
    requires
        ms@.len() <= 4,
    ensures
        n == kans_v(ms@.map_values(|m: Meld| meld_v(m)), ms@.len() as int),
        n <= 4,
{
    let ghost mv = ms@.map_values(|m: Meld| meld_v(m));
    let mut n: usize = 0;
    let mut i: usize = 0;
    while i < ms.len()
        invariant
            i <= ms@.len() <= 4,
            mv == ms@.map_values(|m: Meld| meld_v(m)),
            n == kans_v(mv, i as int),
            n <= i,
        decreases ms@.len() - i,
    {
        assert(mv[i as int] == meld_v(ms@[i as int]));
        match ms[i].kind {
            MeldKind::Minkan | MeldKind::Kakan | MeldKind::Ankan => {
                n += 1;
            },
            _ => {},
        }
        i += 1;
    }
    n
}

fn copy_tiles_vec(v: &Vec<Tile>) -> (c: Vec<Tile>)
    ensures
        c@ == v@,
{
    let mut c: Vec<Tile> = Vec::new();
    let mut i: usize = 0;
    while i < v.len()
        invariant
            i <= v@.len(),
            c@ == v@.take(i as int),
        decreases v@.len() - i,
    {
        c.push(v[i]);
        assert(v@.take(i + 1) =~= v@.take(i as int).push(v@[i as int]));
        i += 1;
    }
    assert(v@.take(v@.len() as int) =~= v@);
    c
}

fn copy_kinds_vec(v: &Vec<TileType>) -> (c: Vec<TileType>)
    ensures
        c@ == v@,
{
    let mut c: Vec<TileType> = Vec::new();
    let mut i: usize = 0;
    while i < v.len()
        invariant
            i <= v@.len(),
            c@ == v@.take(i as int),
        decreases v@.len() - i,
    {
        c.push(v[i]);
        assert(v@.take(i + 1) =~= v@.take(i as int).push(v@[i as int]));
        i += 1;
    }
    assert(v@.take(v@.len() as int) =~= v@);
    c
}

fn copy_melds_vec(v: &Vec<Meld>) -> (c: Vec<Meld>)
    ensures
        c@.map_values(|m: Meld| meld_v(m)) == v@.map_values(|m: Meld| meld_v(m)),
{
    let mut c: Vec<Meld> = Vec::new();
    let mut i: usize = 0;
    while i < v.len()
        invariant
            i <= v@.len(),
            c@.len() == i,
            forall|j: int| 0 <= j < i ==> meld_v(#[trigger] c@[j]) == meld_v(v@[j]),
        decreases v@.len() - i,
    {
        let m = &v[i];
        c.push(Meld { kind: m.kind, tiles: copy_tiles_vec(&m.tiles), from_player: m.from_player });
        i += 1;
    }
    assert(c@.map_values(|m: Meld| meld_v(m)) =~= v@.map_values(|m: Meld| meld_v(m)));
    c
}

fn copy_events(v: &Vec<GameEvent>) -> (c: Vec<GameEvent>)
    ensures
        c@ == v@,
{
    let mut c: Vec<GameEvent> = Vec::new();
    let mut i: usize = 0;
    while i < v.len()
        invariant
            i <= v@.len(),
            c@ == v@.take(i as int),
        decreases v@.len() - i,
    {
        c.push(v[i]);
        assert(v@.take(i + 1) =~= v@.take(i as int).push(v@[i as int]));
        i += 1;
    }
    assert(v@.take(v@.len() as int) =~= v@);
    c
}

/// The first copy of `t` taken out of the hand, if there is one.
fn remove_first_exec(v: &mut Vec<Tile>, t: Tile) -> (found: bool)
    ensures
        found == old(v)@.contains(t),
        final(v)@ == remove_first(old(v)@, t),
        !found ==> final(v)@ == old(v)@,
{
    let ghost s = v@;
    let mut i: usize = 0;
    while i < v.len()
        invariant
            i <= v@.len(),
            v@ == s,
            s == old(v)@,
            first_index(s, t, 0) == first_index(s, t, i as int),
            forall|x: int| 0 <= x < i ==> s[x] != t,
        decreases v@.len() - i,
    {
        if v[i].0 == t.0 {
            assert(s[i as int] == t);
            assert(first_index(s, t, i as int) == Some(i as int));
            assert(s.contains(t));
            v.remove(i);
            return true;
        }
        i += 1;
    }
    false
}

/// The hand tiles `ts` taken out one by one (see `take_seq`).
fn take_exec(hand: &mut Vec<Tile>, ts: &Vec<Tile>) -> (missing: Option<Tile>)
    ensures
        (final(hand)@, missing) == take_seq(old(hand)@, ts@),
{
    let mut i: usize = 0;
    assert(ts@.skip(0) =~= ts@);
    while i < ts.len()
        invariant
            i <= ts@.len(),
            take_seq(old(hand)@, ts@) == take_seq(hand@, ts@.skip(i as int)),
        decreases ts@.len() - i,
    {
        let t = ts[i];
        assert(ts@.skip(i as int).drop_first() =~= ts@.skip(i + 1));
        assert(ts@.skip(i as int)[0] == t);
        if !remove_first_exec(hand, t) {
            return Some(t);
        }
        i += 1;
    }
    assert(ts@.skip(i as int) =~= Seq::<Tile>::empty());
    None
}

fn called_by(melds: &[Vec<Meld>; 4], s: usize) -> (b: bool)
    ensures
        b == exists|a: int, j: int|
            0 <= a < 4 && 0 <= j < melds@[a]@.len() && (#[trigger] melds@[a]@[j]).from_player == Some(PlayerId(s)),
{
    let mut a: usize = 0;
    while a < 4
        invariant
            a <= 4,
            forall|x: int, j: int|
                0 <= x < a && 0 <= j < melds@[x]@.len() ==> (#[trigger] melds@[x]@[j]).from_player != Some(PlayerId(s)),
        decreases 4 - a,
    {
        let ms = &melds[a];
        let mut j: usize = 0;
        while j < ms.len()
            invariant
                j <= ms@.len(),
                a < 4,
                ms@ == melds@[a as int]@,
                forall|x: int, y: int|
                    0 <= x < a && 0 <= y < melds@[x]@.len() ==> (#[trigger] melds@[x]@[y]).from_player != Some(PlayerId(s)),
                forall|y: int| 0 <= y < j ==> (#[trigger] ms@[y]).from_player != Some(PlayerId(s)),
            decreases ms@.len() - j,
        {
            match ms[j].from_player {
                Some(q) => {
                    if q.0 == s {
                        assert(melds@[a as int]@[j as int].from_player == Some(PlayerId(s)));
                        return true;
                    }
                },
                None => {},
            }
            j += 1;
        }
        a += 1;
    }
    false
}

impl GameState {
    /// A copy of the state.
    pub fn copy(&self) -> (c: GameState)
        ensures
            c@ == self@,
    {
        let c = GameState {
            hands: [
                copy_tiles_vec(&self.hands[0]),
                copy_tiles_vec(&self.hands[1]),
                copy_tiles_vec(&self.hands[2]),
                copy_tiles_vec(&self.hands[3]),
            ],
            melds: [
                copy_melds_vec(&self.melds[0]),
                copy_melds_vec(&self.melds[1]),
                copy_melds_vec(&self.melds[2]),
                copy_melds_vec(&self.melds[3]),
            ],
            discards: [
                copy_tiles_vec(&self.discards[0]),
                copy_tiles_vec(&self.discards[1]),
                copy_tiles_vec(&self.discards[2]),
                copy_tiles_vec(&self.discards[3]),
            ],
            discarded_kinds: [
                copy_kinds_vec(&self.discarded_kinds[0]),
                copy_kinds_vec(&self.discarded_kinds[1]),
                copy_kinds_vec(&self.discarded_kinds[2]),
                copy_kinds_vec(&self.discarded_kinds[3]),
            ],
            points: self.points,
            is_riichi: self.is_riichi,
            furiten: self.furiten,
            phase: self.phase,
            wall: copy_tiles_vec(&self.wall),
            kuikae: [
                copy_kinds_vec(&self.kuikae[0]),
                copy_kinds_vec(&self.kuikae[1]),
                copy_kinds_vec(&self.kuikae[2]),
                copy_kinds_vec(&self.kuikae[3]),
            ],
            pao: self.pao,
            riichi_sticks: self.riichi_sticks,
            dealer: self.dealer,
            nagashi_mangan: self.nagashi_mangan,
            events: copy_events(&self.events),
        };
        assert(c@.hands =~= self@.hands);
        assert(c@.melds =~= self@.melds);
        assert(c@.discards =~= self@.discards);
        assert(c@.discarded_kinds =~= self@.discarded_kinds);
        assert(c@.kuikae =~= self@.kuikae);
        c
    }

    /// The payments of an exhaustive draw now (see `draw_payments_v`).
    fn exhaustive_payments(&self) -> (pay: [i32; 4])
        requires
            self.wf(),
        ensures
            pay@ == draw_payments_v(self@),
    {
        let open = [self.melds[0].len(), self.melds[1].len(), self.melds[2].len(), self.melds[3].len()];
        let called = [
            called_by(&self.melds, 0),
            called_by(&self.melds, 1),
            called_by(&self.melds, 2),
            called_by(&self.melds, 3),
        ];
        let ghost v = self@;
        proof {
            assert forall|x: int| 0 <= x < 4 implies (#[trigger] self.hands@[x])@.len() < 200 && open[x] <= 4 && forall|
                i: int,
            | 0 <= i < self.hands@[x]@.len() ==> (#[trigger] self.hands@[x]@[i]).wf() by {
                assert(v.hands[x] == self.hands[x]@);
                assert(v.melds[x].len() == self.melds[x]@.len());
            }
        }
        let pay = resolve_exhaustive_draw(&self.hands, open, &self.discards, called, self.nagashi_mangan, self.dealer);
        proof {
            let tenpai_v = Seq::new(
                4,
                |x: int| crate::declaration::waiting_kinds(v.hands[x], v.melds[x].len() as int).len() > 0,
            );
            assert(tenpai_seats(self.hands@, open@) =~= tenpai_v) by {
                assert forall|x: int| 0 <= x < 4 implies tenpai_seats(self.hands@, open@)[x] == tenpai_v[x] by {
                    assert(v.hands[x] == self.hands[x]@);
                    assert(v.melds[x].len() == self.melds[x]@.len());
                }
            }
            assert(discard_views(self.discards@) =~= v.discards);
            assert(called@ =~= called_from_v(v.melds)) by {
                assert forall|s: int| 0 <= s < 4 implies called@[s] == called_from_v(v.melds)[s] by {
                    if called@[s] {
                        let (a, j) = choose|a: int, j: int|
                            0 <= a < 4 && 0 <= j < self.melds@[a]@.len() && (#[trigger] self.melds@[a]@[j]).from_player
                                == Some(PlayerId(s as usize));
                        assert(v.melds[a][j] == meld_v(self.melds@[a]@[j]));
                    }
                    if called_from_v(v.melds)[s] {
                        let (a, j) = choose|a: int, j: int|
                            0 <= a < 4 && 0 <= j < v.melds[a].len() && (#[trigger] v.melds[a][j]).from_player == Some(
                                PlayerId(s as usize),
                            );
                        assert(v.melds[a][j] == meld_v(self.melds@[a]@[j]));
                        assert(self.melds@[a]@[j].from_player == Some(PlayerId(s as usize)));
                    }
                }
            }
            assert(pay@ =~= draw_payments_v(v));
        }
        pay
    }

    /// Draws for the seat to draw (see `draw_spec`).
    #[verifier::loop_isolation(false)]
    pub fn draw(&mut self) -> (r: Result<Tile, GameError>)
        requires
            old(self).wf(),
        ensures
            final(self).wf(),
            (r, final(self)@) == draw_spec(old(self)@),
    {
        let ghost v = self@;
        let player = match self.phase {
            TurnPhase::Draw { player } => player,
            _ => {
                return Err(GameError::WrongPhase);
            },
        };
        if self.wall.len() == 0 {
            let pay = self.exhaustive_payments();
            let mut i: usize = 0;
            while i < 4
                invariant
                    i <= 4,
                    forall|x: int| 0 <= x < i ==> i32::MIN <= #[trigger] self.points@[x] + pay@[x] <= i32::MAX,
                decreases 4 - i,
            {
                let sum = self.points[i] as i64 + pay[i] as i64;
                if sum < i32::MIN as i64 || sum > i32::MAX as i64 {
                    assert(!(i32::MIN <= self.points@[i as int] + pay@[i as int] <= i32::MAX));
                    assert(!points_fit(v.points, pay@));
                    return Err(GameError::PointsOverflow);
                }
                i += 1;
            }
            let ghost before = self.points@;
            self.points = [
                self.points[0] + pay[0],
                self.points[1] + pay[1],
                self.points[2] + pay[2],
                self.points[3] + pay[3],
            ];
            self.phase = TurnPhase::RoundOver;
            self.events.push(GameEvent::ExhaustiveDraw { payments: pay });
            proof {
                assert(self.points@ =~= add_points(before, pay@));
                assert(pay == [pay@[0], pay@[1], pay@[2], pay@[3]]);
                assert(self@.hands =~= v.hands);
                assert(self@.melds =~= v.melds);
                assert(self@.discards =~= v.discards);
                assert(self@.discarded_kinds =~= v.discarded_kinds);
                assert(self@.kuikae =~= v.kuikae);
            }
            return Err(GameError::WallExhausted);
        }
        let t = self.wall.remove(0);
        let p = player.0;
        proof {
            assert(v.hands[p as int] == self.hands[p as int]@);
            assert(v.melds[p as int].len() == self.melds[p as int]@.len());
        }
        let f = update_discard_furiten(self.furiten[p], &self.hands[p], self.melds[p].len(), &self.discarded_kinds[p]);
        self.furiten[p] = f;
        self.phase = TurnPhase::Action { player, drawn: Some(t) };
        self.events.push(GameEvent::Drew { player, tile: t });
        proof {
            assert(self.wall@ =~= v.wall.drop_first());
            assert(self.furiten@ =~= v.furiten.update(p as int, checked_furiten(v, p as int, v.furiten[p as int])));
            assert(self@.hands =~= v.hands);
            assert(self@.melds =~= v.melds);
            assert(self@.discards =~= v.discards);
            assert(self@.discarded_kinds =~= v.discarded_kinds);
            assert(self@.kuikae =~= v.kuikae);
        }
        Ok(t)
    }

    /// Discards `tile` for the seat to move (see `discard_spec`).
    #[verifier::loop_isolation(false)]
    pub fn discard(&mut self, tile: Tile) -> (r: Result<(), GameError>)
        requires
            old(self).wf(),
        ensures
            final(self).wf(),
            (r, final(self)@) == discard_spec(old(self)@, tile),
    {
        let ghost v = self@;
        let (player, drawn) = match self.phase {
            TurnPhase::Action { player, drawn } => (player, drawn),
            _ => {
                return Err(GameError::WrongPhase);
            },
        };
        let p = player.0;
        proof {
            assert(v.hands[p as int] == self.hands[p as int]@);
            assert(v.kuikae[p as int] == self.kuikae[p as int]@);
        }
        let k = tile.tile_type();
        let mut j: usize = 0;
        while j < self.kuikae[p].len()
            invariant
                p < 4,
                j <= self.kuikae[p as int]@.len(),
                forall|x: int| 0 <= x < j ==> self.kuikae[p as int]@[x] != k,
            decreases self.kuikae[p as int]@.len() - j,
        {
            if self.kuikae[p][j].0 == k.0 {
                assert(self.kuikae[p as int]@[j as int] == k);
                assert(v.kuikae[p as int].contains(k));
                return Err(GameError::Kuikae);
            }
            j += 1;
        }
        let is_drawn = match drawn {
            Some(d) => d.0 == tile.0,
            None => false,
        };
        if self.is_riichi[p] && drawn.is_some() && !is_drawn {
            return Err(GameError::RiichiDrawnOnly);
        }
        if !is_drawn {
            let mut full = copy_tiles_vec(&self.hands[p]);
            if let Some(d) = drawn {
                full.push(d);
            }
            assert(full@ == with_drawn_seq(v.hands[p as int], drawn));
            let found = remove_first_exec(&mut full, tile);
            if !found {
                return Err(GameError::TileNotInHand(tile));
            }
            self.hands[p] = full;
        }
        proof {
            let full = with_drawn_seq(v.hands[p as int], drawn);
            lemma_first_index(full, tile, 0);
            if !is_drawn {
                assert(forall|x: int| 0 <= x < full.len() ==> (#[trigger] full[x]).wf());
                assert(full.contains(tile));
                let q = first_index(full, tile, 0)->0;
                assert(full[q] == tile);
                assert(tile.wf());
                assert(self.hands[p as int]@.len() == full.len() - 1);
            } else {
                assert(drawn == Some(tile));
            }
        }
        self.discarded_kinds[p].push(k);
        let f = self.furiten[p];
        self.furiten[p] = Furiten { round: false, ..f };
        self.kuikae[p] = Vec::new();
        self.phase = TurnPhase::Response { discarder: player, tile };
        self.events.push(GameEvent::Discarded { player, tile });
        proof {
            let w = discard_spec(v, tile).1;
            assert(self@.hands =~= w.hands);
            assert(self@.melds =~= w.melds);
            assert(self@.discards =~= w.discards);
            assert(self@.discarded_kinds =~= w.discarded_kinds);
            assert(self@.kuikae =~= w.kuikae);
            assert(self@.furiten =~= w.furiten);
            assert forall|s: int, i: int| 0 <= s < 4 && 0 <= i < self@.hands[s].len() implies (
            #[trigger] self@.hands[s][i]).wf() by {
                if s == p && !is_drawn {
                    let full = with_drawn_seq(v.hands[p as int], drawn);
                    assert(forall|x: int| 0 <= x < full.len() ==> (#[trigger] full[x]).wf());
                    lemma_first_index(full, tile, 0);
                    match first_index(full, tile, 0) {
                        Some(q) => {
                            assert(tile == full[q]);
                            assert(self@.hands[s] == full.remove(q));
                            if i < q {
                                assert(self@.hands[s][i] == full[i]);
                            } else {
                                assert(self@.hands[s][i] == full[i + 1]);
                            }
                        },
                        None => {},
                    }
                }
            }
        }
        Ok(())
    }

    /// Whether four kans of more than one seat end the round (see
    /// `four_kan_abort`).
    fn four_kans_abort(&self) -> (b: bool)
        requires
            self.wf(),
        ensures
            b == four_kan_abort(self@.melds),
    {
        let ghost v = self@;
        proof {
            assert forall|x: int| 0 <= x < 4 implies (#[trigger] self.melds@[x])@.len() <= 4 by {
                assert(v.melds[x].len() == self.melds[x]@.len());
            }
        }
        let k0 = kans_exec(&self.melds[0]);
        let k1 = kans_exec(&self.melds[1]);
        let k2 = kans_exec(&self.melds[2]);
        let k3 = kans_exec(&self.melds[3]);
        let total = k0 + k1 + k2 + k3;
        let owners = (if k0 > 0 { 1usize } else { 0 }) + (if k1 > 0 { 1usize } else { 0 }) + (if k2 > 0 {
            1usize
        } else {
            0
        }) + (if k3 > 0 { 1usize } else { 0 });
        proof {
            assert(v.melds[0] == self.melds[0]@.map_values(|m: Meld| meld_v(m)));
            assert(v.melds[1] == self.melds[1]@.map_values(|m: Meld| meld_v(m)));
            assert(v.melds[2] == self.melds[2]@.map_values(|m: Meld| meld_v(m)));
            assert(v.melds[3] == self.melds[3]@.map_values(|m: Meld| meld_v(m)));
            let ks = seq![k0 as int, k1 as int, k2 as int, k3 as int];
            assert(forall|x: int| 0 <= x < 4 ==> kans_v(v.melds[x], v.melds[x].len() as int) == #[trigger] ks[x]);
            if owners >= 2 {
                if k0 > 0 {
                    if k1 > 0 {
                        assert(ks[0] > 0 && ks[1] > 0);
                    } else if k2 > 0 {
                        assert(ks[0] > 0 && ks[2] > 0);
                    } else {
                        assert(ks[0] > 0 && ks[3] > 0);
                    }
                } else if k1 > 0 {
                    if k2 > 0 {
                        assert(ks[1] > 0 && ks[2] > 0);
                    } else {
                        assert(ks[1] > 0 && ks[3] > 0);
                    }
                } else {
                    assert(ks[2] > 0 && ks[3] > 0);
                }
            }
        }
        total >= 4 && owners >= 2
    }

    /// Carries out `player`'s answer to the discard `tile` of `discarder`
    /// (see `response_spec`); `win` is the point changes of the seat's win
    /// check when it declares ron, none when that check failed.
    #[verifier::loop_isolation(false)]
    #[verifier::rlimit(50)]
    pub fn execute_response_call(
        &mut self,
        player: PlayerId,
        action: ResponseAction,
        tile: Tile,
        discarder: PlayerId,
        win: Option<[i32; 4]>,
    ) -> (r: Result<Vec<GameEvent>, GameError>)
        requires
            old(self).wf(),
            player.0 < 4,
            discarder.0 < 4,
            tile.wf(),
        ensures
            final(self).wf(),
            match r {
                Ok(es) => response_spec(old(self)@, player, action, tile, discarder, win).0 == Ok::<
                    Seq<GameEvent>,
                    GameError,
                >(es@),
                Err(e) => response_spec(old(self)@, player, action, tile, discarder, win).0 == Err::<
                    Seq<GameEvent>,
                    GameError,
                >(e),
            },
            final(self)@ == response_spec(old(self)@, player, action, tile, discarder, win).1,
    {
        let ghost v = self@;
        let p = player.0;
        let d = discarder.0;
        proof {
            assert forall|x: int| 0 <= x < 4 implies v.hands[x] == (#[trigger] self.hands@[x])@ && v.melds[x].len()
                == self.melds@[x]@.len() by {}
        }
        match action {
            ResponseAction::Pass => {
                let mut newf = self.furiten;
                let mut s: usize = 0;
                while s < 4
                    invariant
                        s <= 4,
                        self@ == v,
                        forall|x: int| 0 <= x < s ==> #[trigger] newf@[x] == furiten_after_window(v, discarder, tile)[x],
                    decreases 4 - s,
                {
                    assert(v.hands[s as int] == self.hands[s as int]@);
                    assert(v.melds[s as int].len() == self.melds[s as int]@.len());
                    let f0 = if s == d {
                        self.furiten[s]
                    } else {
                        record_response_pass(
                            self.furiten[s],
                            &self.hands[s],
                            self.melds[s].len(),
                            self.is_riichi[s],
                            tile,
                        )
                    };
                    let f1 = update_discard_furiten(f0, &self.hands[s], self.melds[s].len(), &self.discarded_kinds[s]);
                    newf[s] = f1;
                    s += 1;
                }
                self.discards[d].push(tile);
                self.furiten = newf;
                self.phase = TurnPhase::Draw { player: PlayerId((d + 1) % 4) };
                let e = GameEvent::Passed { discarder };
                self.events.push(e);
                proof {
                    let w = response_spec(v, player, action, tile, discarder, win).1;
                    assert(self@.hands =~= w.hands);
                    assert(self@.melds =~= w.melds);
                    assert(self@.discards =~= w.discards);
                    assert(self@.discarded_kinds =~= w.discarded_kinds);
                    assert(self@.kuikae =~= w.kuikae);
                    assert(self@.furiten =~= w.furiten);
                }
                let es = vec![e];
                assert(es@ =~= seq![e]);
                Ok(es)
            },
            ResponseAction::Ron => match win {
                Some(changes) => {
                    if self.hands[p].len() >= 14 {
                        return Err(GameError::HandFull);
                    }
                    let mut i: usize = 0;
                    while i < 4
                        invariant
                            i <= 4,
                            self@ == v,
                            forall|x: int| 0 <= x < i ==> i32::MIN <= #[trigger] self.points@[x] + changes@[x] <= i32::MAX,
                        decreases 4 - i,
                    {
                        let sum = self.points[i] as i64 + changes[i] as i64;
                        if sum < i32::MIN as i64 || sum > i32::MAX as i64 {
                            assert(!(i32::MIN <= self.points@[i as int] + changes@[i as int] <= i32::MAX));
                            assert(!points_fit(v.points, changes@));
                            return Err(GameError::PointsOverflow);
                        }
                        i += 1;
                    }
                    let ghost before = self.points@;
                    self.hands[p].push(tile);
                    self.points = [
                        self.points[0] + changes[0],
                        self.points[1] + changes[1],
                        self.points[2] + changes[2],
                        self.points[3] + changes[3],
                    ];
                    self.riichi_sticks = 0;
                    self.phase = TurnPhase::RoundOver;
                    let e = GameEvent::Won { player, from: discarder, changes };
                    self.events.push(e);
                    proof {
                        let w = response_spec(v, player, action, tile, discarder, win).1;
                        assert(self.points@ =~= add_points(before, changes@));
                        assert(self@.hands =~= w.hands);
                        assert(self@.melds =~= w.melds);
                        assert(self@.discards =~= w.discards);
                        assert(self@.discarded_kinds =~= w.discarded_kinds);
                        assert(self@.kuikae =~= w.kuikae);
                    }
                    let es = vec![e];
                    assert(es@ =~= seq![e]);
                    Ok(es)
                },
                None => {
                    let mut newf = self.furiten;
                    let mut s: usize = 0;
                    while s < 4
                        invariant
                            s <= 4,
                            self@ == v,
                            forall|x: int| 0 <= x < s ==> #[trigger] newf@[x] == furiten_checked_all(v)[x],
                        decreases 4 - s,
                    {
                        assert(v.hands[s as int] == self.hands[s as int]@);
                        assert(v.melds[s as int].len() == self.melds[s as int]@.len());
                        let f1 = update_discard_furiten(
                            self.furiten[s],
                            &self.hands[s],
                            self.melds[s].len(),
                            &self.discarded_kinds[s],
                        );
                        newf[s] = f1;
                        s += 1;
                    }
                    self.discards[d].push(tile);
                    self.furiten = newf;
                    self.phase = TurnPhase::Draw { player: PlayerId((d + 1) % 4) };
                    let e = GameEvent::Called { player, action, from: discarder };
                    self.events.push(e);
                    proof {
                        let w = response_spec(v, player, action, tile, discarder, win).1;
                        assert(self@.hands =~= w.hands);
                        assert(self@.melds =~= w.melds);
                        assert(self@.discards =~= w.discards);
                        assert(self@.discarded_kinds =~= w.discarded_kinds);
                        assert(self@.kuikae =~= w.kuikae);
                        assert(self@.furiten =~= w.furiten);
                    }
                    let es = vec![e];
                    assert(es@ =~= seq![e]);
                    Ok(es)
                },
            },
            _ => {
                if self.melds[p].len() >= 4 {
                    return Err(GameError::TooManyCalls);
                }
                let is_kan = match action {
                    ResponseAction::Minkan { .. } => true,
                    _ => false,
                };
                if is_kan {
                    let k0 = kans_exec(&self.melds[0]);
                    let k1 = kans_exec(&self.melds[1]);
                    let k2 = kans_exec(&self.melds[2]);
                    let k3 = kans_exec(&self.melds[3]);
                    proof {
                        assert(v.melds[0] == self.melds[0]@.map_values(|m: Meld| meld_v(m)));
                        assert(v.melds[1] == self.melds[1]@.map_values(|m: Meld| meld_v(m)));
                        assert(v.melds[2] == self.melds[2]@.map_values(|m: Meld| meld_v(m)));
                        assert(v.melds[3] == self.melds[3]@.map_values(|m: Meld| meld_v(m)));
                    }
                    if k0 + k1 + k2 + k3 >= 4 {
                        return Err(GameError::KanLimit);
                    }
                }
                let (kind, ts) = match action {
                    ResponseAction::Pon { hand_tiles } => (MeldKind::Pon, vec![hand_tiles[0], hand_tiles[1]]),
                    ResponseAction::Chi { hand_tiles } => (MeldKind::Chi, vec![hand_tiles[0], hand_tiles[1]]),
                    ResponseAction::Minkan { hand_tiles } => (
                        MeldKind::Minkan,
                        vec![hand_tiles[0], hand_tiles[1], hand_tiles[2]],
                    ),
                    _ => (MeldKind::Pon, vec![]),
                };
                assert(ts@ == call_hand_tiles(action));
                assert(kind == call_meld_kind(action));
                proof {
                    lemma_take_seq_keeps(v.hands[p as int], ts@);
                }
                let missing = take_exec(&mut self.hands[p], &ts);
                if let Some(t) = missing {
                    proof {
                        let w = response_spec(v, player, action, tile, discarder, win).1;
                        assert(self@.hands =~= w.hands);
                        assert(self@.melds =~= w.melds);
                        assert(self@.discards =~= w.discards);
                        assert(self@.discarded_kinds =~= w.discarded_kinds);
                        assert(self@.kuikae =~= w.kuikae);
                    }
                    return Err(GameError::TileNotInHand(t));
                }
                let mut meld_tiles = ts;
                meld_tiles.push(tile);
                let ghost old_calls = self.melds[p as int]@;
                self.melds[p].push(Meld { kind, tiles: meld_tiles, from_player: Some(discarder) });
                let e = GameEvent::Called { player, action, from: discarder };
                self.events.push(e);
                let ghost calls = v.melds[p as int].push(
                    MeldV { kind: call_meld_kind(action), tiles: call_hand_tiles(action).push(tile), from_player: Some(discarder) },
                );
                proof {
                    assert(self.melds[p as int]@.map_values(|m: Meld| meld_v(m)) =~= calls);
                    lemma_pao_v(self.melds[p as int]@, discarder, tile, self.pao[p as int]);
                }
                if is_kan {
                    let pao = update_pao_after_open_call(&self.melds[p], discarder, tile, self.pao[p]);
                    self.pao[p] = pao;
                    proof {
                        assert(self@.melds =~= v.melds.update(p as int, calls));
                        assert(self@.hands =~= v.hands.update(p as int, take_seq(v.hands[p as int], ts@).0));
                    }
                    let abort = self.four_kans_abort();
                    self.phase = if abort {
                        TurnPhase::RoundOver
                    } else {
                        TurnPhase::Chankan { player, tile }
                    };
                    proof {
                        let w = response_spec(v, player, action, tile, discarder, win).1;
                        assert(self@.hands =~= w.hands);
                        assert(self@.melds =~= w.melds);
                        assert(self@.discards =~= w.discards);
                        assert(self@.discarded_kinds =~= w.discarded_kinds);
                        assert(self@.kuikae =~= w.kuikae);
                        assert(self@.pao =~= w.pao);
                    }
                } else {
                    proof {
                        assert(v.hands[p as int] == old(self).hands[p as int]@);
                    }
                    let f = update_discard_furiten(
                        self.furiten[p],
                        &self.hands[p],
                        self.melds[p].len(),
                        &self.discarded_kinds[p],
                    );
                    self.furiten[p] = f;
                    let forbidden = vec![tile.tile_type()];
                    assert(forbidden@ =~= seq![tile.spec_tile_type()]);
                    self.kuikae[p] = forbidden;
                    if kind == MeldKind::Pon {
                        let pao = update_pao_after_open_call(&self.melds[p], discarder, tile, self.pao[p]);
                        self.pao[p] = pao;
                    }
                    self.phase = TurnPhase::Action { player, drawn: None };
                    proof {
                        let w = response_spec(v, player, action, tile, discarder, win).1;
                        assert(self@.hands =~= w.hands);
                        assert(self@.melds =~= w.melds);
                        assert(self@.discards =~= w.discards);
                        assert(self@.discarded_kinds =~= w.discarded_kinds);
                        assert(self@.kuikae =~= w.kuikae);
                        assert(self@.furiten =~= w.furiten);
                        assert(self@.pao =~= w.pao);
                    }
                }
                let es = vec![e];
                assert(es@ =~= seq![e]);
                Ok(es)
            },
        }
    }

    fn replay_step(&mut self, event: &GameEvent) -> (r: Result<(), ReplayError>)
        requires
            old(self).wf(),
        ensures
            r is Ok ==> final(self).wf() && (r, final(self)@) == replay_spec(old(self)@, *event),
            r is Err ==> r == replay_spec(old(self)@, *event).0,
    {
        let ghost v = self@;
        match *event {
            GameEvent::Drew { player, tile } => {
                let fits = match self.phase {
                    TurnPhase::Draw { player: q } => q.0 == player.0 && self.wall.len() > 0 && self.wall[0].0 == tile.0,
                    _ => false,
                };
                if !fits {
                    return Err(ReplayError::Mismatch);
                }
                match self.draw() {
                    Ok(_) => Ok(()),
                    Err(e) => Err(ReplayError::Refused(e)),
                }
            },
            GameEvent::ExhaustiveDraw { payments } => {
                let fits = match self.phase {
                    TurnPhase::Draw { .. } => self.wall.len() == 0,
                    _ => false,
                };
                if !fits {
                    return Err(ReplayError::Mismatch);
                }
                let pay = self.exhaustive_payments();
                if pay[0] != payments[0] || pay[1] != payments[1] || pay[2] != payments[2] || pay[3] != payments[3] {
                    return Err(ReplayError::Mismatch);
                }
                assert(payments@ =~= pay@);
                match self.draw() {
                    Ok(_) => Ok(()),
                    Err(GameError::WallExhausted) => Ok(()),
                    Err(e) => Err(ReplayError::Refused(e)),
                }
            },
            GameEvent::Discarded { player, tile } => {
                let fits = match self.phase {
                    TurnPhase::Action { player: q, .. } => q.0 == player.0,
                    _ => false,
                };
                if !fits {
                    return Err(ReplayError::Mismatch);
                }
                match self.discard(tile) {
                    Ok(()) => Ok(()),
                    Err(e) => Err(ReplayError::Refused(e)),
                }
            },
            GameEvent::Passed { discarder } => {
                let (d, tile) = match self.phase {
                    TurnPhase::Response { discarder: d, tile } => (d, tile),
                    _ => {
                        return Err(ReplayError::Mismatch);
                    },
                };
                if d.0 != discarder.0 {
                    return Err(ReplayError::Mismatch);
                }
                match self.execute_response_call(discarder, ResponseAction::Pass, tile, d, None) {
                    Ok(_) => Ok(()),
                    Err(e) => Err(ReplayError::Refused(e)),
                }
            },
            GameEvent::Called { player, action, from } => {
                let (d, tile) = match self.phase {
                    TurnPhase::Response { discarder: d, tile } => (d, tile),
                    _ => {
                        return Err(ReplayError::Mismatch);
                    },
                };
                let is_pass = match action {
                    ResponseAction::Pass => true,
                    _ => false,
                };
                if d.0 != from.0 || player.0 >= 4 || is_pass {
                    return Err(ReplayError::Mismatch);
                }
                match self.execute_response_call(player, action, tile, d, None) {
                    Ok(_) => Ok(()),
                    Err(e) => Err(ReplayError::Refused(e)),
                }
            },
            GameEvent::Won { player, from, changes } => {
                let (d, tile) = match self.phase {
                    TurnPhase::Response { discarder: d, tile } => (d, tile),
                    _ => {
                        return Err(ReplayError::Mismatch);
                    },
                };
                if d.0 != from.0 || player.0 >= 4 {
                    return Err(ReplayError::Mismatch);
                }
                match self.execute_response_call(player, ResponseAction::Ron, tile, d, Some(changes)) {
                    Ok(_) => Ok(()),
                    Err(e) => Err(ReplayError::Refused(e)),
                }
            },
        }
    }

    /// Replays one logged event (see `replay_spec`): the step it records is
    /// carried out, and when the event does not fit or the step is refused
    /// the state is left exactly as it was.
    pub fn apply_event(&mut self, event: &GameEvent) -> (r: Result<(), ReplayError>)
        requires
            old(self).wf(),
        ensures
            final(self).wf(),
            (r, final(self)@) == replay_spec(old(self)@, *event),
            r is Err ==> *final(self) == *old(self),
    {
        let mut next = self.copy();
        let r = next.replay_step(event);
        if r.is_ok() {
            *self = next;
        }
        r
    }

    /// A round dealt from `wall`, drawn from its front: each seat gets
    /// thirteen tiles (see `dealt`), nothing is called, discarded or
    /// flagged, the rest stays in the wall, the scores are `points`, and the
    /// dealer is to draw; the log is empty.
    pub fn start_round(wall: &Vec<Tile>, dealer: usize, points: [i32; 4], riichi_sticks: u32, nagashi_mangan: bool) -> (g: GameState)
        requires
            52 <= wall@.len() < 1000,
            forall|i: int| 0 <= i < wall@.len() ==> (#[trigger] wall@[i]).wf(),
            dealer < 4,
        ensures
            g.wf(),
            forall|s: int| 0 <= s < 4 ==> (#[trigger] g@.hands[s]) == dealt(wall@, s),
            forall|s: int| 0 <= s < 4 ==> (#[trigger] g@.melds[s]).len() == 0 && g@.discards[s].len() == 0
                && g@.discarded_kinds[s].len() == 0 && g@.kuikae[s].len() == 0,
            g@.wall == wall@.skip(52),
            g@.points == points@,
            g@.is_riichi == seq![false, false, false, false],
            g@.furiten == seq![Furiten { discard: false, round: false, riichi: false }; 4],
            g@.pao == seq![None::<usize>, None, None, None],
            g@.phase == (TurnPhase::Draw { player: PlayerId(dealer) }),
            g@.riichi_sticks == riichi_sticks,
            g@.dealer == dealer,
            g@.nagashi_mangan == nagashi_mangan,
            g@.events.len() == 0,
    {
        let mut hands: [Vec<Tile>; 4] = [Vec::new(), Vec::new(), Vec::new(), Vec::new()];
        let mut s: usize = 0;
        while s < 4
            invariant
                s <= 4,
                52 <= wall@.len(),
                forall|x: int| 0 <= x < s ==> (#[trigger] hands[x])@ == dealt(wall@, x),
            decreases 4 - s,
        {
            let mut h: Vec<Tile> = Vec::new();
            let mut r: usize = 0;
            while r < 3
                invariant
                    r <= 3,
                    s < 4,
                    52 <= wall@.len(),
                    h@.len() == 4 * r,
                    r >= 1 ==> h@.subrange(0, 4) == wall@.subrange(4 * s, 4 * s + 4),
                    r >= 2 ==> h@.subrange(4, 8) == wall@.subrange(16 + 4 * s, 20 + 4 * s),
                    r >= 3 ==> h@.subrange(8, 12) == wall@.subrange(32 + 4 * s, 36 + 4 * s),
                decreases 3 - r,
            {
                let base = 16 * r + 4 * s;
                let ghost before = h@;
                h.push(wall[base]);
                h.push(wall[base + 1]);
                h.push(wall[base + 2]);
                h.push(wall[base + 3]);
                assert(h@.subrange(4 * r as int, 4 * r + 4) =~= wall@.subrange(base as int, base + 4));
                assert(h@.subrange(0, 4 * r as int) =~= before);
                if r >= 1 {
                    assert(h@.subrange(0, 4) =~= before.subrange(0, 4));
                }
                if r >= 2 {
                    assert(h@.subrange(4, 8) =~= before.subrange(4, 8));
                }
                r += 1;
            }
            h.push(wall[48 + s]);
            assert(h@ =~= dealt(wall@, s as int)) by {
                let d = dealt(wall@, s as int);
                assert forall|i: int| 0 <= i < 13 implies h@[i] == d[i] by {
                    if i < 4 {
                        assert(h@[i] == h@.subrange(0, 4)[i]);
                    } else if i < 8 {
                        assert(h@[i] == h@.subrange(4, 8)[i - 4]);
                    } else if i < 12 {
                        assert(h@[i] == h@.subrange(8, 12)[i - 8]);
                    }
                }
            }
            hands[s] = h;
            s += 1;
        }
        let mut rest: Vec<Tile> = Vec::new();
        let mut i: usize = 52;
        while i < wall.len()
            invariant
                52 <= i <= wall@.len(),
                rest@ == wall@.subrange(52, i as int),
            decreases wall@.len() - i,
        {
            rest.push(wall[i]);
            assert(wall@.subrange(52, i + 1) =~= wall@.subrange(52, i as int).push(wall@[i as int]));
            i += 1;
        }
        let clear = Furiten { discard: false, round: false, riichi: false };
        let g = GameState {
            hands,
            melds: [Vec::new(), Vec::new(), Vec::new(), Vec::new()],
            discards: [Vec::new(), Vec::new(), Vec::new(), Vec::new()],
            discarded_kinds: [Vec::new(), Vec::new(), Vec::new(), Vec::new()],
            points,
            is_riichi: [false; 4],
            furiten: [clear; 4],
            phase: TurnPhase::Draw { player: PlayerId(dealer) },
            wall: rest,
            kuikae: [Vec::new(), Vec::new(), Vec::new(), Vec::new()],
            pao: [None; 4],
            riichi_sticks,
            dealer,
            nagashi_mangan,
            events: Vec::new(),
        };
        proof {
            assert(g@.wall =~= wall@.skip(52));
            assert(g@.is_riichi =~= seq![false, false, false, false]);
            assert(g@.furiten =~= seq![clear; 4]);
            assert(g@.pao =~= seq![None::<usize>, None, None, None]);
            assert forall|x: int, k: int| 0 <= x < 4 && 0 <= k < g@.hands[x].len() implies (#[trigger] g@.hands[x][k]).wf() by {
                let d = dealt(wall@, x);
                if k < 4 {
                    assert(d[k] == wall@[4 * x + k]);
                } else if k < 8 {
                    assert(d[k] == wall@[16 + 4 * x + k - 4]);
                } else if k < 12 {
                    assert(d[k] == wall@[32 + 4 * x + k - 8]);
                } else {
                    assert(d[k] == wall@[48 + x]);
                }
            }
            assert forall|k: int| 0 <= k < g@.wall.len() implies (#[trigger] g@.wall[k]).wf() by {
                assert(g@.wall[k] == wall@[52 + k]);
            }
        }
        g
    }

    /// The tiles left in the wall.
    pub fn remaining_tiles(&self) -> (n: usize)
        ensures
            n == self@.wall.len(),
    {
        self.wall.len()
    }

    /// Whether the round is over: its phase says so, or the wall is empty.
    pub fn is_round_over(&self) -> (b: bool)
        ensures
            b == (self@.phase is RoundOver || self@.wall.len() == 0),
    {
        match self.phase {
            TurnPhase::RoundOver => true,
            _ => self.wall.len() == 0,
        }
    }

    /// The seat whose turn it is: the one to draw or to move, the
    /// discarder while a discard waits for answers, the caller of an open
    /// kan; none once the round is over.
    pub fn current_player(&self) -> (p: Option<PlayerId>)
        ensures
            p == match self@.phase {
                TurnPhase::Draw { player } => Some(player),
                TurnPhase::Action { player, .. } => Some(player),
                TurnPhase::Response { discarder, .. } => Some(discarder),
                TurnPhase::Chankan { player, .. } => Some(player),
                TurnPhase::RoundOver => None::<PlayerId>,
            },
    {
        match self.phase {
            TurnPhase::Draw { player } => Some(player),
            TurnPhase::Action { player, .. } => Some(player),
            TurnPhase::Response { discarder, .. } => Some(discarder),
            TurnPhase::Chankan { player, .. } => Some(player),
            TurnPhase::RoundOver => None,
        }
    }

    /// The tile the seat to move drew, if any.
    pub fn drawn_tile(&self) -> (t: Option<Tile>)
        ensures
            t == match self@.phase {
                TurnPhase::Action { drawn, .. } => drawn,
                _ => None::<Tile>,
            },
    {
        match self.phase {
            TurnPhase::Action { drawn, .. } => drawn,
            _ => None,
        }
    }
}

} // verus!
