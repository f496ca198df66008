use vstd::prelude::*;
use crate::calls::ResponseAction;
use crate::legal::TurnAction;
use crate::tile::{Tile, TileType};

verus! {

/// The first offered tile of kind `k`, if any.
pub open spec fn first_of_kind(options: Seq<Tile>, k: TileType) -> Option<Tile>
    decreases options.len(),
{
    if options.len() == 0 {
        None
    } else if options[0].spec_tile_type() == k {
        Some(options[0])
    } else {
        first_of_kind(options.drop_first(), k)
    }
}

/// The discard the computer player makes: the only offered discard when
/// there is one; else the offered tile of the kind its analysis picked;
/// failing that the first offered discard, the last tile of the hand, and
/// at last the first tile.
pub open spec fn chosen_discard(pick: Option<TileType>, options: Seq<Tile>, hand: Seq<Tile>) -> Tile {
    if options.len() == 1 {
        options[0]
    } else if pick matches Some(k) && first_of_kind(options, k) is Some {
        first_of_kind(options, pick->0)->0
    } else if options.len() > 0 {
        options[0]
    } else if hand.len() > 0 {
        hand.last()
    } else {
        Tile(0)
    }
}

/// The computer player's move on its turn: tsumo whenever it can; when it
/// may declare riichi, the riichi discard its analysis picked, or else the
/// first allowed riichi discard; otherwise a plain discard (see
/// `chosen_discard`). `riichi_pick` and `discard_pick` are what the
/// analysis chose.
pub open spec fn decide_turn_spec(
    can_tsumo: bool,
    can_riichi: bool,
    riichi_pick: Option<Tile>,
    riichi_options: Seq<Tile>,
    discard_pick: Option<TileType>,
    discard_options: Seq<Tile>,
    hand: Seq<Tile>,
) -> TurnAction {
    if can_tsumo {
        TurnAction::Tsumo
    } else if can_riichi && riichi_pick is Some {
        TurnAction::RiichiDiscard(riichi_pick->0)
    } else if can_riichi && riichi_options.len() > 0 {
        TurnAction::RiichiDiscard(riichi_options[0])
    } else {
        TurnAction::Discard(chosen_discard(discard_pick, discard_options, hand))
    }
}

fn find_of_kind(options: &[Tile], k: TileType) -> (r: Option<Tile>)
    ensures
        r == first_of_kind(options@, k),
{
    let mut i: usize = 0;
    assert(options@.skip(0) =~= options@);
    while i < options.len()
        invariant
            i <= options@.len(),
            first_of_kind(options@, k) == first_of_kind(options@.skip(i as int), k),
        decreases options@.len() - i,
    {
        assert(options@.skip(i as int).drop_first() =~= options@.skip(i + 1));
        assert(options@.skip(i as int)[0] == options@[i as int]);
        if options[i].tile_type().0 == k.0 {
            return Some(options[i]);
        }
        i += 1;
    }
    assert(options@.skip(i as int) =~= Seq::<Tile>::empty());
    None
}

/// The computer player's move on its turn (see `decide_turn_spec`).
pub fn decide_turn(
    can_tsumo: bool,
    can_riichi: bool,
    riichi_pick: Option<Tile>,
    riichi_options: &[Tile],
    discard_pick: Option<TileType>,
    discard_options: &[Tile],
    hand: &[Tile],
) -> (action: TurnAction)
    ensures
        action == decide_turn_spec(
            can_tsumo,
            can_riichi,
            riichi_pick,
            riichi_options@,
            discard_pick,
            discard_options@,
            hand@,
        ),
{
    if can_tsumo {
        return TurnAction::Tsumo;
    }
    if can_riichi {
        if let Some(t) = riichi_pick {
            return TurnAction::RiichiDiscard(t);
        }
        if riichi_options.len() > 0 {
            return TurnAction::RiichiDiscard(riichi_options[0]);
        }
    }
    let tile = if discard_options.len() == 1 {
        discard_options[0]
    } else {
        let found = match discard_pick {
            Some(k) => find_of_kind(discard_options, k),
            None => None,
        };
        match found {
            Some(t) => t,
            None => if discard_options.len() > 0 {
                discard_options[0]
            } else if hand.len() > 0 {
                hand[hand.len() - 1]
            } else {
                Tile(0)
            },
        }
    };
    TurnAction::Discard(tile)
}

/// The computer player answers a call offer with ron when its analysis
/// chose ron, and passes otherwise: it makes no other call.
pub fn call_reply(decision: Option<ResponseAction>) -> (r: ResponseAction)
    ensures
        r == (if decision matches Some(ResponseAction::Ron) {
            ResponseAction::Ron
        } else {
            ResponseAction::Pass
        }),
{
    match decision {
        Some(ResponseAction::Ron) => ResponseAction::Ron,
        _ => ResponseAction::Pass,
    }
}

} // verus!
