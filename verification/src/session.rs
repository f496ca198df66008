use vstd::prelude::*;
use crate::legal::TurnAction;
use crate::tile::Tile;

verus! {

/// A turn action as a game session receives it. `Riichi` declares riichi
/// without naming the discard, which the session then picks.
#[derive(Debug, Clone, Copy)]
pub enum SessionTurn {
    Discard(Tile),
    Tsumo,
    RiichiDiscard(Tile),
    Riichi,
    Ankan(Tile),
    Kakan(usize, Tile),
    KyuushuKyuuhai,
}

/// The turn action a session hands to the game: a riichi without a tile
/// becomes the riichi discard of the first allowed tile, and is refused
/// (`None`) when no discard is allowed; every other action passes as it is.
pub open spec fn normalize_turn_spec(action: SessionTurn, riichi_options: Seq<Tile>) -> Option<TurnAction> {
    match action {
        SessionTurn::Discard(t) => Some(TurnAction::Discard(t)),
        SessionTurn::Tsumo => Some(TurnAction::Tsumo),
        SessionTurn::RiichiDiscard(t) => Some(TurnAction::RiichiDiscard(t)),
        SessionTurn::Riichi => if riichi_options.len() > 0 {
            Some(TurnAction::RiichiDiscard(riichi_options[0]))
        } else {
            None
        },
        SessionTurn::Ankan(t) => Some(TurnAction::Ankan(t)),
        SessionTurn::Kakan(i, t) => Some(TurnAction::Kakan(i, t)),
        SessionTurn::KyuushuKyuuhai => Some(TurnAction::KyuushuKyuuhai),
    }
}

/// The turn action handed to the game (see `normalize_turn_spec`).
pub fn normalize_turn(action: SessionTurn, riichi_options: &[Tile]) -> (r: Option<TurnAction>)
    ensures
        r == normalize_turn_spec(action, riichi_options@),
{
    match action {
        SessionTurn::Discard(t) => Some(TurnAction::Discard(t)),
        SessionTurn::Tsumo => Some(TurnAction::Tsumo),
        SessionTurn::RiichiDiscard(t) => Some(TurnAction::RiichiDiscard(t)),
        SessionTurn::Riichi => if riichi_options.len() > 0 {
            Some(TurnAction::RiichiDiscard(riichi_options[0]))
        } else {
            None
        },
        SessionTurn::Ankan(t) => Some(TurnAction::Ankan(t)),
        SessionTurn::Kakan(i, t) => Some(TurnAction::Kakan(i, t)),
        SessionTurn::KyuushuKyuuhai => Some(TurnAction::KyuushuKyuuhai),
    }
}

/// What a session does once the game has carried out a turn action, after
/// sending the new state to everyone.
#[derive(Debug, Clone, Copy, PartialEq, Eq, Structural)]
pub enum TurnFollowUp {
    /// A tile was put out: the other seats may answer it.
    ResponseWindow,
    /// The round is over: report its result.
    RoundEnd,
    /// Nothing more here: the session's main loop takes the next step
    /// from the phase the game is in.
    StateOnly,
}

/// The follow-up of a turn action: a discard, a riichi discard or an added
/// kan opens the window for answers; tsumo and the nine-terminal abort end
/// the round; after a closed kan the session only sends the new state.
pub open spec fn follow_up_spec(action: TurnAction) -> TurnFollowUp {
    match action {
        TurnAction::Discard(_) | TurnAction::RiichiDiscard(_) | TurnAction::Kakan(..) => TurnFollowUp::ResponseWindow,
        TurnAction::Tsumo | TurnAction::KyuushuKyuuhai => TurnFollowUp::RoundEnd,
        TurnAction::Ankan(_) => TurnFollowUp::StateOnly,
    }
}

/// The follow-up of a turn action (see `follow_up_spec`).
pub fn follow_up(action: TurnAction) -> (f: TurnFollowUp)
    ensures
        f == follow_up_spec(action),
{
    match action {
        TurnAction::Discard(_) | TurnAction::RiichiDiscard(_) | TurnAction::Kakan(..) => TurnFollowUp::ResponseWindow,
        TurnAction::Tsumo | TurnAction::KyuushuKyuuhai => TurnFollowUp::RoundEnd,
        TurnAction::Ankan(_) => TurnFollowUp::StateOnly,
    }
}

} // verus!
