use vstd::prelude::*;
use crate::calls::{CallOption, CallType, ResponseAction};
use crate::channel::{GamePhase, PlayerAction, StateUpdate, TenpaiInfo, WaitInfo};
use crate::kans::copy_tiles;
use crate::legal::TurnAction;
use crate::messages::{
    ActionRequest, CallOptionView, CallRequest, CallResponsePayload, CallTypeView, ClientEnvelope, ClientMessage,
    GamePhaseView, GameStateView, MeldKindView, MeldView, PlayerView, ServerEnvelope, ServerMessage,
    TenpaiInfoView, TurnActionPayload, WaitInfoView, PROTOCOL_VERSION,
};
use crate::player::PlayerId;
use crate::tile::{Meld, MeldKind, Tile};
use std::collections::HashSet;

verus! {

broadcast use vstd::std_specs::hash::group_hash_axioms;

/// Hands out the increasing event sequence of one connection. The
/// sequence belongs to the connection, not to the game: a reconnection
/// starts a new sequencer and begins with a full snapshot.
#[derive(Debug)]
pub struct ServerSequencer {
    next_seq: u64,
}

impl View for ServerSequencer {
    type V = u64;

    closed spec fn view(&self) -> u64 {
        self.next_seq
    }
}

impl Default for ServerSequencer {
    fn default() -> (s: Self)
        ensures
            s@ == 0,
    {
        ServerSequencer { next_seq: 0 }
    }
}

/// The next sequence number: one more, held at the largest `u64`.
pub open spec fn next_seq_spec(seq: u64) -> u64 {
    if seq == u64::MAX {
        seq
    } else {
        (seq + 1) as u64
    }
}

impl ServerSequencer {
    pub fn new() -> (s: Self)
        ensures
            s@ == 0,
    {
        Self::default()
    }

    /// Wraps a message with the next sequence number of the connection.
    pub fn envelope(&mut self, body: ServerMessage) -> (e: ServerEnvelope)
        ensures
            final(self)@ == next_seq_spec(old(self)@),
            e.seq == final(self)@,
            e.protocol_version == PROTOCOL_VERSION,
            e.body == body,
    {
        self.next_seq = self.next_seq.saturating_add(1);
        ServerEnvelope { protocol_version: PROTOCOL_VERSION, seq: self.next_seq, body }
    }

    /// The sequence number of the last envelope, 0 before the first.
    pub fn current_seq(&self) -> (s: u64)
        ensures
            s == self@,
    {
        self.next_seq
    }
}

#[derive(Debug, Clone, Copy, PartialEq, Eq, Structural)]
pub enum CommandError {
    Duplicate,
    StaleSequence { expected: u64, actual: u64 },
}

/// The commands one connection has had accepted: refuses a resubmitted
/// command and a command made against an old state.
#[derive(Debug)]
pub struct CommandTracker {
    seen: HashSet<u64>,
}

impl View for CommandTracker {
    type V = Set<u64>;

    closed spec fn view(&self) -> Set<u64> {
        self.seen@
    }
}

impl Default for CommandTracker {
    fn default() -> (t: Self)
        ensures
            t@ == Set::<u64>::empty(),
    {
        CommandTracker { seen: HashSet::new() }
    }
}

/// The answer to a command and the accepted commands after it: stale when
/// it expected another sequence, a duplicate when accepted before, else
/// accepted and remembered.
pub open spec fn validate_spec(seen: Set<u64>, command_id: u64, expected_seq: u64, actual_seq: u64) -> (
    Result<(), CommandError>,
    Set<u64>,
) {
    if expected_seq != actual_seq {
        (Err(CommandError::StaleSequence { expected: expected_seq, actual: actual_seq }), seen)
    } else if seen.contains(command_id) {
        (Err(CommandError::Duplicate), seen)
    } else {
        (Ok(()), seen.insert(command_id))
    }
}

impl CommandTracker {
    pub fn new() -> (t: Self)
        ensures
            t@ == Set::<u64>::empty(),
    {
        Self::default()
    }

    /// Checks a command against the sequence the connection is at.
    pub fn validate(&mut self, envelope: &ClientEnvelope, actual_seq: u64) -> (r: Result<(), CommandError>)
        ensures
            (r, final(self)@) == validate_spec(old(self)@, envelope.command_id, envelope.expected_seq, actual_seq),
    {
        if envelope.expected_seq != actual_seq {
            return Err(CommandError::StaleSequence { expected: envelope.expected_seq, actual: actual_seq });
        }
        if !self.seen.insert(envelope.command_id) {
            return Err(CommandError::Duplicate);
        }
        Ok(())
    }
}

/// Sequence numbers on a connection never go down, and go up on every
/// envelope until the largest `u64`.
pub proof fn lemma_sequence_is_monotonic(seq: u64)
    ensures
        next_seq_spec(seq) >= seq,
        seq < u64::MAX ==> next_seq_spec(seq) == seq + 1,
{
}

/// A command is accepted at most once: once accepted, the same command id
/// is refused whatever sequence it comes with.
pub proof fn lemma_accepted_command_is_not_accepted_again(
    seen: Set<u64>,
    command_id: u64,
    seq: u64,
    later_expected: u64,
    later_actual: u64,
)
    ensures
        validate_spec(seen, command_id, seq, seq).0 is Ok ==> validate_spec(
            validate_spec(seen, command_id, seq, seq).1,
            command_id,
            later_expected,
            later_actual,
        ).0 is Err,
{
}

/// The accepted commands only grow.
pub proof fn lemma_accepted_commands_only_grow(seen: Set<u64>, command_id: u64, expected: u64, actual: u64)
    ensures
        seen.subset_of(validate_spec(seen, command_id, expected, actual).1),
{
}

/// The action a wire message asks for; the seat is never taken from the
/// message. Messages that are no game action give none.
pub open spec fn action_of(message: ClientMessage) -> Option<PlayerAction> {
    match message {
        ClientMessage::TurnAction { action } => Some(PlayerAction::TurnAction(match action {
            TurnActionPayload::Discard(t) => TurnAction::Discard(t),
            TurnActionPayload::RiichiDiscard(t) => TurnAction::RiichiDiscard(t),
            TurnActionPayload::Tsumo => TurnAction::Tsumo,
            TurnActionPayload::Ankan(t) => TurnAction::Ankan(t),
            TurnActionPayload::Kakan(i, t) => TurnAction::Kakan(i, t),
            TurnActionPayload::KyuushuKyuuhai => TurnAction::KyuushuKyuuhai,
        })),
        ClientMessage::CallResponse { action } => Some(PlayerAction::CallResponse(match action {
            CallResponsePayload::Pass => ResponseAction::Pass,
            CallResponsePayload::Ron => ResponseAction::Ron,
            CallResponsePayload::Pon { hand_tiles } => ResponseAction::Pon { hand_tiles },
            CallResponsePayload::Chi { hand_tiles } => ResponseAction::Chi { hand_tiles },
            CallResponsePayload::Minkan { hand_tiles } => ResponseAction::Minkan { hand_tiles },
        })),
        _ => None,
    }
}

/// Converts an authenticated wire message to a session action (see
/// `action_of`).
pub fn client_message_to_action(message: ClientMessage) -> (a: Option<PlayerAction>)
    ensures
        a == action_of(message),
{
    match message {
        ClientMessage::TurnAction { action } => Some(PlayerAction::TurnAction(match action {
            TurnActionPayload::Discard(t) => TurnAction::Discard(t),
            TurnActionPayload::RiichiDiscard(t) => TurnAction::RiichiDiscard(t),
            TurnActionPayload::Tsumo => TurnAction::Tsumo,
            TurnActionPayload::Ankan(t) => TurnAction::Ankan(t),
            TurnActionPayload::Kakan(i, t) => TurnAction::Kakan(i, t),
            TurnActionPayload::KyuushuKyuuhai => TurnAction::KyuushuKyuuhai,
        })),
        ClientMessage::CallResponse { action } => Some(PlayerAction::CallResponse(match action {
            CallResponsePayload::Pass => ResponseAction::Pass,
            CallResponsePayload::Ron => ResponseAction::Ron,
            CallResponsePayload::Pon { hand_tiles } => ResponseAction::Pon { hand_tiles },
            CallResponsePayload::Chi { hand_tiles } => ResponseAction::Chi { hand_tiles },
            CallResponsePayload::Minkan { hand_tiles } => ResponseAction::Minkan { hand_tiles },
        })),
        ClientMessage::JoinRoom { .. } | ClientMessage::Ready | ClientMessage::LeaveRoom => None,
    }
}

pub open spec fn phase_view_spec(phase: GamePhase) -> GamePhaseView {
    match phase {
        GamePhase::DrawPhase => GamePhaseView::DrawPhase,
        GamePhase::ActionPhase => GamePhaseView::ActionPhase,
        GamePhase::ResponsePhase => GamePhaseView::ResponsePhase,
        GamePhase::ChankanResponse => GamePhaseView::ChankanResponse,
        GamePhase::RoundOver => GamePhaseView::RoundOver,
    }
}

pub fn phase_view(phase: GamePhase) -> (v: GamePhaseView)
    ensures
        v == phase_view_spec(phase),
{
    match phase {
        GamePhase::DrawPhase => GamePhaseView::DrawPhase,
        GamePhase::ActionPhase => GamePhaseView::ActionPhase,
        GamePhase::ResponsePhase => GamePhaseView::ResponsePhase,
        GamePhase::ChankanResponse => GamePhaseView::ChankanResponse,
        GamePhase::RoundOver => GamePhaseView::RoundOver,
    }
}

pub open spec fn meld_kind_spec(kind: MeldKind) -> MeldKindView {
    match kind {
        MeldKind::Chi => MeldKindView::Chi,
        MeldKind::Pon => MeldKindView::Pon,
        MeldKind::Ankan => MeldKindView::Ankan,
        MeldKind::Minkan => MeldKindView::Minkan,
        MeldKind::Kakan => MeldKindView::Kakan,
    }
}

pub fn meld_kind(kind: MeldKind) -> (v: MeldKindView)
    ensures
        v == meld_kind_spec(kind),
{
    match kind {
        MeldKind::Chi => MeldKindView::Chi,
        MeldKind::Pon => MeldKindView::Pon,
        MeldKind::Ankan => MeldKindView::Ankan,
        MeldKind::Minkan => MeldKindView::Minkan,
        MeldKind::Kakan => MeldKindView::Kakan,
    }
}

/// The meld as shown: its kind, its tiles, and whom it was called from.
pub open spec fn shows_meld(v: MeldView, m: Meld) -> bool {
    v.kind == meld_kind_spec(m.kind) && v.tiles@ == m.tiles@ && v.from_player == m.from_player
}

fn meld_views(melds: &Vec<Meld>) -> (v: Vec<MeldView>)
    ensures
        v@.len() == melds@.len(),
        forall|i: int| 0 <= i < melds@.len() ==> shows_meld(#[trigger] v@[i], melds@[i]),
{
    let mut v: Vec<MeldView> = Vec::new();
    let mut i: usize = 0;
    while i < melds.len()
        invariant
            i <= melds@.len(),
            v@.len() == i,
            forall|j: int| 0 <= j < i ==> shows_meld(#[trigger] v@[j], melds@[j]),
        decreases melds@.len() - i,
    {
        let m = &melds[i];
        v.push(MeldView { kind: meld_kind(m.kind), tiles: copy_tiles(m.tiles.as_slice()), from_player: m.from_player });
        i += 1;
    }
    v
}

/// Seat `index` as shown to `recipient`: the hand only to its own player.
pub open spec fn shows_seat(v: PlayerView, u: StateUpdate, index: int, recipient: PlayerId) -> bool {
    &&& v.id == PlayerId(index as usize)
    &&& (index == recipient.0) == (v.hand is Some)
    &&& v.hand matches Some(h) ==> h@ == u.hand_tiles@
    &&& v.hand_count == if index == recipient.0 {
        u.hand_count
    } else {
        u.hand_counts[index]
    }
    &&& v.points == u.points[index]
    &&& v.wind == u.winds[index]
    &&& v.discards@ == u.discards[index]@
    &&& v.melds@.len() == u.melds[index]@.len()
    &&& forall|j: int| 0 <= j < v.melds@.len() ==> shows_meld(#[trigger] v.melds@[j], u.melds[index]@[j])
    &&& v.is_riichi == u.is_riichi[index]
    &&& v.riichi_declaration_tile is None
}

fn seat_view(u: &StateUpdate, index: usize, recipient: PlayerId) -> (v: PlayerView)
    requires
        index < 4,
    ensures
        shows_seat(v, *u, index as int, recipient),
{
    let hand = if index == recipient.0 {
        Some(copy_tiles(u.hand_tiles.as_slice()))
    } else {
        None
    };
    let hand_count = if index == recipient.0 {
        u.hand_count
    } else {
        u.hand_counts[index]
    };
    PlayerView {
        id: PlayerId(index),
        hand,
        hand_count,
        points: u.points[index],
        wind: u.winds[index],
        discards: copy_tiles(u.discards[index].as_slice()),
        melds: meld_views(&u.melds[index]),
        is_riichi: u.is_riichi[index],
        riichi_declaration_tile: None,
    }
}

/// The ready-hand summary as shown.
pub open spec fn shows_tenpai(v: Option<TenpaiInfoView>, t: Option<TenpaiInfo>) -> bool {
    match (v, t) {
        (Some(a), Some(b)) => a.is_furiten == b.is_furiten && a.waits@.len() == b.waits@.len() && forall|j: int|
            0 <= j < a.waits@.len() ==> (#[trigger] a.waits@[j]).tile_type == b.waits@[j].tile_type
                && a.waits@[j].remaining == b.waits@[j].remaining && a.waits@[j].is_no_yaku
                == b.waits@[j].is_no_yaku,
        (None, None) => true,
        _ => false,
    }
}

fn tenpai_view(t: &Option<TenpaiInfo>) -> (v: Option<TenpaiInfoView>)
    ensures
        shows_tenpai(v, *t),
{
    match t {
        Some(info) => {
            let mut waits: Vec<WaitInfoView> = Vec::new();
            let mut i: usize = 0;
            while i < info.waits.len()
                invariant
                    i <= info.waits@.len(),
                    waits@.len() == i,
                    forall|j: int|
                        0 <= j < i ==> (#[trigger] waits@[j]).tile_type == info.waits@[j].tile_type
                            && waits@[j].remaining == info.waits@[j].remaining && waits@[j].is_no_yaku
                            == info.waits@[j].is_no_yaku,
                decreases info.waits@.len() - i,
            {
                let w: WaitInfo = info.waits[i];
                waits.push(WaitInfoView { tile_type: w.tile_type, remaining: w.remaining, is_no_yaku: w.is_no_yaku });
                i += 1;
            }
            Some(TenpaiInfoView { waits, is_furiten: info.is_furiten })
        },
        None => None,
    }
}

/// The table as shown to `recipient`: every seat as `shows_seat` says, the
/// recipient's seat wind, the drawn tile only when the recipient is the
/// player to move, and the rest as the update has it.
pub open spec fn shows_state(v: GameStateView, u: StateUpdate, recipient: PlayerId) -> bool {
    &&& forall|i: int| 0 <= i < 4 ==> shows_seat(#[trigger] v.players[i], u, i, recipient)
    &&& v.wind == u.winds[recipient.0 as int]
    &&& v.round == u.round
    &&& v.honba == u.honba
    &&& v.riichi_sticks == u.riichi_sticks
    &&& v.current_player == u.current_player
    &&& v.drawn_tile == if u.current_player == recipient {
        u.drawn_tile
    } else {
        None
    }
    &&& v.dora@ == u.dora@
    &&& v.remaining_tiles == u.remaining_tiles
    &&& v.phase == phase_view_spec(u.phase)
    &&& v.recent_events@.len() == 0
    &&& v.analysis is None
    &&& shows_tenpai(v.tenpai_info, u.tenpai_info)
}

fn copy_kinds(kinds: &Vec<crate::tile::TileType>) -> (v: Vec<crate::tile::TileType>)
    ensures
        v@ == kinds@,
{
    let mut v: Vec<crate::tile::TileType> = Vec::new();
    let mut i: usize = 0;
    while i < kinds.len()
        invariant
            i <= kinds@.len(),
            v@ == kinds@.take(i as int),
        decreases kinds@.len() - i,
    {
        v.push(kinds[i]);
        assert(kinds@.take(i + 1) =~= kinds@.take(i as int).push(kinds@[i as int]));
        i += 1;
    }
    assert(kinds@.take(kinds@.len() as int) =~= kinds@);
    v
}

/// The state update as sent to `recipient` (see `shows_state`): the
/// other players' concealed tiles are never part of it.
pub fn state_update_to_wire(update: &StateUpdate, recipient: PlayerId) -> (m: ServerMessage)
    requires
        recipient.0 < 4,
    ensures
        m matches ServerMessage::StateUpdate(v) && shows_state(*v, *update, recipient),
{
    let players = [
        seat_view(update, 0, recipient),
        seat_view(update, 1, recipient),
        seat_view(update, 2, recipient),
        seat_view(update, 3, recipient),
    ];
    let drawn_tile = if update.current_player.0 == recipient.0 {
        update.drawn_tile
    } else {
        None
    };
    let view = GameStateView {
        players,
        wind: update.winds[recipient.0],
        round: update.round,
        honba: update.honba,
        riichi_sticks: update.riichi_sticks,
        current_player: update.current_player,
        drawn_tile,
        dora: copy_kinds(&update.dora),
        remaining_tiles: update.remaining_tiles,
        phase: phase_view(update.phase),
        recent_events: Vec::new(),
        analysis: None,
        tenpai_info: tenpai_view(&update.tenpai_info),
    };
    assert forall|i: int| 0 <= i < 4 implies shows_seat(#[trigger] view.players[i], *update, i, recipient) by {
        assert(view.players[i] == players[i]);
    }
    ServerMessage::StateUpdate(Box::new(view))
}

/// Wraps an action request.
pub fn action_required_to_wire(request: ActionRequest) -> (m: ServerMessage)
    ensures
        m matches ServerMessage::ActionRequired(r) && r == request,
{
    ServerMessage::ActionRequired(request)
}

pub open spec fn call_type_view_spec(c: CallType) -> CallTypeView {
    match c {
        CallType::Ron => CallTypeView::Ron,
        CallType::Minkan { hand_tiles } => CallTypeView::Minkan { hand_tiles },
        CallType::Pon { hand_tiles } => CallTypeView::Pon { hand_tiles },
        CallType::Chi { hand_tiles } => CallTypeView::Chi { hand_tiles },
    }
}

pub open spec fn option_view_spec(o: CallOption) -> CallOptionView {
    CallOptionView { player: o.player, call_type: call_type_view_spec(o.call_type) }
}

/// The calls offered to `player` as sent to it: its own options only, in
/// order.
pub fn call_options_to_wire(player: PlayerId, options: &[CallOption]) -> (m: ServerMessage)
    ensures
        m matches ServerMessage::CallRequired(r) && r.player == player && r.options@ == options@.filter(
            |o: CallOption| o.player == player,
        ).map_values(|o: CallOption| option_view_spec(o)),
{
    let ghost pred = |o: CallOption| o.player == player;
    let ghost f = |o: CallOption| option_view_spec(o);
    let mut views: Vec<CallOptionView> = Vec::new();
    let mut i: usize = 0;
    while i < options.len()
        invariant
            i <= options@.len(),
            pred == (|o: CallOption| o.player == player),
            f == (|o: CallOption| option_view_spec(o)),
            views@ == options@.take(i as int).filter(pred).map_values(f),
        decreases options@.len() - i,
    {
        let o = options[i];
        proof {
            reveal(Seq::filter);
            assert(options@.take(i + 1).drop_last() =~= options@.take(i as int));
            assert(options@.take(i + 1).last() == o);
        }
        if o.player.0 == player.0 {
            let call_type = match o.call_type {
                CallType::Ron => CallTypeView::Ron,
                CallType::Minkan { hand_tiles } => CallTypeView::Minkan { hand_tiles },
                CallType::Pon { hand_tiles } => CallTypeView::Pon { hand_tiles },
                CallType::Chi { hand_tiles } => CallTypeView::Chi { hand_tiles },
            };
            views.push(CallOptionView { player: o.player, call_type });
            assert(options@.take(i + 1).filter(pred) == options@.take(i as int).filter(pred).push(o));
            assert(options@.take(i + 1).filter(pred).map_values(f) =~= options@.take(i as int).filter(pred).map_values(
                f,
            ).push(f(o)));
        } else {
            assert(options@.take(i + 1).filter(pred) == options@.take(i as int).filter(pred));
        }
        i += 1;
    }
    assert(options@.take(options@.len() as int) =~= options@);
    ServerMessage::CallRequired(CallRequest { player, options: views })
}

} // verus!
