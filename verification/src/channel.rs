use vstd::prelude::*;
use crate::calls::ResponseAction;
use crate::legal::TurnAction;
use crate::player::PlayerId;
use crate::tile::{Meld, Tile, TileType};

verus! {

/// What a player submits to a game session, without the player's seat:
/// the session knows who sent it.
#[derive(Debug, Clone, Copy)]
pub enum PlayerAction {
    TurnAction(TurnAction),
    CallResponse(ResponseAction),
}

/// The phase of a round, as a session reports it.
#[derive(Debug, Clone, Copy, PartialEq, Eq, Structural)]
pub enum GamePhase {
    DrawPhase,
    ActionPhase,
    ResponsePhase,
    ChankanResponse,
    RoundOver,
}

/// A wait of a ready hand: the kind, the copies still unseen, and whether
/// winning on it lacks a yaku.
#[derive(Debug, Clone, Copy)]
pub struct WaitInfo {
    pub tile_type: TileType,
    pub remaining: usize,
    pub is_no_yaku: bool,
}

/// The waits of a ready hand and whether it is furiten.
#[derive(Debug, Clone)]
pub struct TenpaiInfo {
    pub waits: Vec<WaitInfo>,
    pub is_furiten: bool,
}

/// The state a session sends to one player: the whole table, with the
/// concealed tiles of that player only.
#[derive(Debug, Clone)]
pub struct StateUpdate {
    pub phase: GamePhase,
    pub current_player: PlayerId,
    pub pending_discard: Option<Tile>,
    pub drawn_tile: Option<Tile>,
    pub hand_tiles: Vec<Tile>,
    pub hand_count: usize,
    pub hand_counts: [usize; 4],
    pub points: [i32; 4],
    pub winds: [TileType; 4],
    pub is_riichi: [bool; 4],
    pub discards: [Vec<Tile>; 4],
    pub melds_count: [usize; 4],
    pub melds: [Vec<Meld>; 4],
    pub dora: Vec<TileType>,
    pub remaining_tiles: usize,
    pub round: u32,
    pub honba: u32,
    pub riichi_sticks: u32,
    pub tenpai_info: Option<TenpaiInfo>,
}

/// The table a session reports from: every seat's concealed tiles,
/// discards, calls, points, wind and riichi, and the round's shared state.
#[derive(Debug, Clone)]
pub struct TableState {
    pub phase: GamePhase,
    pub current_player: PlayerId,
    pub pending_discard: Option<Tile>,
    pub drawn_tile: Option<Tile>,
    pub hands: [Vec<Tile>; 4],
    pub points: [i32; 4],
    pub winds: [TileType; 4],
    pub is_riichi: [bool; 4],
    pub discards: [Vec<Tile>; 4],
    pub melds: [Vec<Meld>; 4],
    pub dora: Vec<TileType>,
    pub remaining_tiles: usize,
    pub round: u32,
    pub honba: u32,
    pub riichi_sticks: u32,
}

/// Two calls hold the same kind, tiles and source.
pub open spec fn same_meld(a: Meld, b: Meld) -> bool {
    a.kind == b.kind && a.tiles@ == b.tiles@ && a.from_player == b.from_player
}

/// The recipient's own tiles: its hand, and its drawn tile when it is the
/// one to move.
pub open spec fn own_tiles(t: TableState, recipient: PlayerId) -> Seq<Tile> {
    let hand = t.hands[recipient.0 as int]@;
    if t.current_player == recipient && t.drawn_tile is Some {
        hand.push(t.drawn_tile->0)
    } else {
        hand
    }
}

/// The update `u` reports table `t` to `recipient`: its own tiles, the
/// drawn tile only when it is the one to move, of the other seats only how
/// many tiles they hold, and everything on the table; `tenpai` is the
/// recipient's ready-hand summary.
pub open spec fn reports(u: StateUpdate, t: TableState, recipient: PlayerId, tenpai: Option<TenpaiInfo>) -> bool {
    &&& u.phase == t.phase
    &&& u.current_player == t.current_player
    &&& u.pending_discard == t.pending_discard
    &&& u.drawn_tile == (if t.current_player == recipient {
        t.drawn_tile
    } else {
        None
    })
    &&& u.hand_tiles@ == own_tiles(t, recipient)
    &&& u.hand_count == t.hands[recipient.0 as int]@.len()
    &&& forall|i: int| 0 <= i < 4 ==> #[trigger] u.hand_counts[i] == t.hands[i]@.len()
    &&& u.points == t.points
    &&& u.winds == t.winds
    &&& u.is_riichi == t.is_riichi
    &&& forall|i: int| 0 <= i < 4 ==> (#[trigger] u.discards[i])@ == t.discards[i]@
    &&& forall|i: int| 0 <= i < 4 ==> #[trigger] u.melds_count[i] == t.melds[i]@.len()
    &&& forall|i: int| 0 <= i < 4 ==> (#[trigger] u.melds[i])@.len() == t.melds[i]@.len()
    &&& forall|i: int, j: int|
        0 <= i < 4 && 0 <= j < t.melds[i]@.len() ==> same_meld(#[trigger] u.melds[i]@[j], t.melds[i]@[j])
    &&& u.dora@ == t.dora@
    &&& u.remaining_tiles == t.remaining_tiles
    &&& u.round == t.round
    &&& u.honba == t.honba
    &&& u.riichi_sticks == t.riichi_sticks
    &&& u.tenpai_info == tenpai
}

fn copy_tile_vec(tiles: &Vec<Tile>) -> (v: Vec<Tile>)
    ensures
        v@ == tiles@,
{
    let mut v: Vec<Tile> = Vec::new();
    let mut i: usize = 0;
    while i < tiles.len()
        invariant
            i <= tiles@.len(),
            v@ == tiles@.take(i as int),
        decreases tiles@.len() - i,
    {
        v.push(tiles[i]);
        assert(tiles@.take(i + 1) =~= tiles@.take(i as int).push(tiles@[i as int]));
        i += 1;
    }
    assert(tiles@.take(tiles@.len() as int) =~= tiles@);
    v
}

fn copy_melds(melds: &Vec<Meld>) -> (v: Vec<Meld>)
    ensures
        v@.len() == melds@.len(),
        forall|j: int| 0 <= j < melds@.len() ==> same_meld(#[trigger] v@[j], melds@[j]),
{
    let mut v: Vec<Meld> = Vec::new();
    let mut i: usize = 0;
    while i < melds.len()
        invariant
            i <= melds@.len(),
            v@.len() == i,
            forall|j: int| 0 <= j < i ==> same_meld(#[trigger] v@[j], melds@[j]),
        decreases melds@.len() - i,
    {
        let m = &melds[i];
        v.push(Meld { kind: m.kind, tiles: copy_tile_vec(&m.tiles), from_player: m.from_player });
        i += 1;
    }
    v
}

/// The state update a session sends to `recipient` (see `reports`).
pub fn state_update_for(table: &TableState, recipient: PlayerId, tenpai: Option<TenpaiInfo>) -> (u: StateUpdate)
    requires
        recipient.0 < 4,
    ensures
        reports(u, *table, recipient, tenpai),
{
    let mine = table.current_player.0 == recipient.0;
    let mut hand_tiles = copy_tile_vec(&table.hands[recipient.0]);
    if mine {
        if let Some(d) = table.drawn_tile {
            hand_tiles.push(d);
        }
    }
    let hand_counts = [table.hands[0].len(), table.hands[1].len(), table.hands[2].len(), table.hands[3].len()];
    let discards = [
        copy_tile_vec(&table.discards[0]),
        copy_tile_vec(&table.discards[1]),
        copy_tile_vec(&table.discards[2]),
        copy_tile_vec(&table.discards[3]),
    ];
    let melds_count = [table.melds[0].len(), table.melds[1].len(), table.melds[2].len(), table.melds[3].len()];
    let melds = [
        copy_melds(&table.melds[0]),
        copy_melds(&table.melds[1]),
        copy_melds(&table.melds[2]),
        copy_melds(&table.melds[3]),
    ];
    let mut dora: Vec<TileType> = Vec::new();
    let mut i: usize = 0;
    while i < table.dora.len()
        invariant
            i <= table.dora@.len(),
            dora@ == table.dora@.take(i as int),
        decreases table.dora@.len() - i,
    {
        dora.push(table.dora[i]);
        assert(table.dora@.take(i + 1) =~= table.dora@.take(i as int).push(table.dora@[i as int]));
        i += 1;
    }
    assert(table.dora@.take(table.dora@.len() as int) =~= table.dora@);
    let u = StateUpdate {
        phase: table.phase,
        current_player: table.current_player,
        pending_discard: table.pending_discard,
        drawn_tile: if mine {
            table.drawn_tile
        } else {
            None
        },
        hand_tiles,
        hand_count: table.hands[recipient.0].len(),
        hand_counts,
        points: table.points,
        winds: table.winds,
        is_riichi: table.is_riichi,
        discards,
        melds_count,
        melds,
        dora,
        remaining_tiles: table.remaining_tiles,
        round: table.round,
        honba: table.honba,
        riichi_sticks: table.riichi_sticks,
        tenpai_info: tenpai,
    };
    assert forall|i: int| 0 <= i < 4 implies (#[trigger] u.discards[i])@ == table.discards[i]@ by {
        assert(u.discards[i] == discards[i]);
    }
    assert forall|i: int| 0 <= i < 4 implies (#[trigger] u.melds[i])@.len() == table.melds[i]@.len() by {
        assert(u.melds[i] == melds[i]);
    }
    assert forall|i: int, j: int|
        0 <= i < 4 && 0 <= j < table.melds[i]@.len() implies same_meld(#[trigger] u.melds[i]@[j], table.melds[i]@[j]) by {
        assert(u.melds[i] == melds[i]);
    }
    u
}

/// Two tables differ at most in the concealed tiles of the seats other
/// than `recipient`, and those seats hold as many tiles in both.
pub open spec fn same_but_hidden(t1: TableState, t2: TableState, recipient: PlayerId) -> bool {
    &&& t1.phase == t2.phase
    &&& t1.current_player == t2.current_player
    &&& t1.pending_discard == t2.pending_discard
    &&& t1.drawn_tile == t2.drawn_tile || t1.current_player != recipient
    &&& t1.hands[recipient.0 as int]@ == t2.hands[recipient.0 as int]@
    &&& forall|i: int| 0 <= i < 4 ==> (#[trigger] t1.hands[i])@.len() == t2.hands[i]@.len()
    &&& t1.points == t2.points
    &&& t1.winds == t2.winds
    &&& t1.is_riichi == t2.is_riichi
    &&& forall|i: int| 0 <= i < 4 ==> (#[trigger] t1.discards[i])@ == t2.discards[i]@
    &&& forall|i: int| 0 <= i < 4 ==> (#[trigger] t1.melds[i])@.len() == t2.melds[i]@.len()
    &&& forall|i: int, j: int|
        0 <= i < 4 && 0 <= j < t1.melds[i]@.len() ==> same_meld(#[trigger] t1.melds[i]@[j], t2.melds[i]@[j])
    &&& t1.dora@ == t2.dora@
    &&& t1.remaining_tiles == t2.remaining_tiles
    &&& t1.round == t2.round
    &&& t1.honba == t2.honba
    &&& t1.riichi_sticks == t2.riichi_sticks
}

/// What a seat is told does not depend on what it may not see: an update
/// that reports one table to `recipient` reports every table that differs
/// only in the other seats' concealed tiles (or in the drawn tile of
/// another seat to move).
pub proof fn lemma_update_hides_other_hands(
    t1: TableState,
    t2: TableState,
    recipient: PlayerId,
    tenpai: Option<TenpaiInfo>,
    u: StateUpdate,
)
    requires
        recipient.0 < 4,
        same_but_hidden(t1, t2, recipient),
        reports(u, t1, recipient, tenpai),
    ensures
        reports(u, t2, recipient, tenpai),
{
    assert forall|i: int, j: int|
        0 <= i < 4 && 0 <= j < t2.melds[i]@.len() implies same_meld(#[trigger] u.melds[i]@[j], t2.melds[i]@[j]) by {
        assert(same_meld(u.melds[i]@[j], t1.melds[i]@[j]));
        assert(same_meld(t1.melds[i]@[j], t2.melds[i]@[j]));
    }
    assert forall|i: int| 0 <= i < 4 implies #[trigger] u.hand_counts[i] == t2.hands[i]@.len() by {
        assert(u.hand_counts[i] == t1.hands[i]@.len());
        assert((t1.hands[i])@.len() == t2.hands[i]@.len());
    }
    assert forall|i: int| 0 <= i < 4 implies #[trigger] u.melds_count[i] == t2.melds[i]@.len() by {
        assert(u.melds_count[i] == t1.melds[i]@.len());
        assert((t1.melds[i])@.len() == t2.melds[i]@.len());
    }
    assert forall|i: int| 0 <= i < 4 implies (#[trigger] u.discards[i])@ == t2.discards[i]@ by {
        assert((t1.discards[i])@ == t2.discards[i]@);
    }
    assert forall|i: int| 0 <= i < 4 implies (#[trigger] u.melds[i])@.len() == t2.melds[i]@.len() by {
        assert((t1.melds[i])@.len() == t2.melds[i]@.len());
    }
}

} // verus!
