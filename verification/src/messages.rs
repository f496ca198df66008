use vstd::prelude::*;
use crate::player::PlayerId;
use crate::tile::{Tile, TileType};

verus! {

/// The wire protocol version that client and server share.
pub const PROTOCOL_VERSION: u16 = 1;

/// The envelope of every client message. `command_id` identifies a
/// resubmission; `expected_seq` is the last server sequence the client had
/// seen, so that a move made on a stale state can be told apart. The
/// sender's seat is never part of the envelope: the server takes it from
/// the authenticated connection.
#[derive(Debug, Clone)]
pub struct ClientEnvelope {
    pub protocol_version: u16,
    pub command_id: u64,
    pub expected_seq: u64,
    pub body: ClientMessage,
}

#[derive(Debug, Clone)]
pub enum ClientMessage {
    JoinRoom { room_id: String },
    TurnAction { action: TurnActionPayload },
    CallResponse { action: CallResponsePayload },
    Ready,
    LeaveRoom,
}

#[derive(Debug, Clone)]
pub enum TurnActionPayload {
    Discard(Tile),
    RiichiDiscard(Tile),
    Tsumo,
    Ankan(Tile),
    Kakan(usize, Tile),
    KyuushuKyuuhai,
}

#[derive(Debug, Clone)]
pub enum CallResponsePayload {
    Pass,
    Ron,
    Pon { hand_tiles: [Tile; 2] },
    Chi { hand_tiles: [Tile; 2] },
    Minkan { hand_tiles: [Tile; 3] },
}

/// The envelope of every server message; `seq` increases on each
/// connection, so that a client can notice a lost or reordered event.
#[derive(Debug, Clone)]
pub struct ServerEnvelope {
    pub protocol_version: u16,
    pub seq: u64,
    pub body: ServerMessage,
}

/// What the server sends.
#[derive(Debug, Clone)]
pub enum ServerMessage {
    RoomJoined { room_id: String, player_id: PlayerId },
    StateUpdate(Box<GameStateView>),
    Event(GameEventView),
    ActionRequired(ActionRequest),
    CallRequired(CallRequest),
    RoundResult(RoundResultView),
    GameOver { scores: [i32; 4], ranking: [usize; 4] },
    Error(String),
}

/// The table as one player is shown it.
#[derive(Debug, Clone)]
pub struct GameStateView {
    pub players: [PlayerView; 4],
    pub wind: TileType,
    pub round: u32,
    pub honba: u32,
    pub riichi_sticks: u32,
    pub current_player: PlayerId,
    pub drawn_tile: Option<Tile>,
    pub dora: Vec<TileType>,
    pub remaining_tiles: usize,
    pub phase: GamePhaseView,
    pub recent_events: Vec<GameEventView>,
    pub analysis: Option<AnalysisInfo>,
    pub tenpai_info: Option<TenpaiInfoView>,
}

#[derive(Debug, Clone)]
pub struct TenpaiInfoView {
    pub waits: Vec<WaitInfoView>,
    pub is_furiten: bool,
}

#[derive(Debug, Clone)]
pub struct WaitInfoView {
    pub tile_type: TileType,
    pub remaining: usize,
    pub is_no_yaku: bool,
}

/// One seat as shown to a player: the hand only for the player's own seat.
#[derive(Debug, Clone)]
pub struct PlayerView {
    pub id: PlayerId,
    pub hand: Option<Vec<Tile>>,
    pub hand_count: usize,
    pub points: i32,
    pub wind: TileType,
    pub discards: Vec<Tile>,
    pub melds: Vec<MeldView>,
    pub is_riichi: bool,
    pub riichi_declaration_tile: Option<Tile>,
}

#[derive(Debug, Clone)]
pub struct MeldView {
    pub kind: MeldKindView,
    pub tiles: Vec<Tile>,
    pub from_player: Option<PlayerId>,
}

#[derive(Debug, Clone, Copy, PartialEq, Eq, Structural)]
pub enum MeldKindView {
    Chi,
    Pon,
    Ankan,
    Minkan,
    Kakan,
}

#[derive(Debug, Clone, Copy, PartialEq, Eq, Structural)]
pub enum GamePhaseView {
    DrawPhase,
    ActionPhase,
    ResponsePhase,
    ChankanResponse,
    RoundOver,
}

#[derive(Debug, Clone)]
pub enum GameEventView {
    GameStarted { dealer: PlayerId },
    RoundStarted { round_number: u32, dealer: PlayerId },
    PlayerDrew { player: PlayerId },
    PlayerDiscarded { player: PlayerId, tile: Tile },
    PlayerCalledPon { player: PlayerId, tiles: Vec<Tile>, from_player: PlayerId },
    PlayerCalledChi { player: PlayerId, tiles: Vec<Tile>, from_player: PlayerId },
    PlayerCalledMinkan { player: PlayerId, tiles: Vec<Tile>, from_player: PlayerId },
    PlayerCalledAnkan { player: PlayerId, tiles: Vec<Tile> },
    PlayerCalledKakan { player: PlayerId, tile: Tile },
    PlayerDeclaredRiichi { player: PlayerId },
    PlayerWon { player: PlayerId, is_tsumo: bool, points: i32, yaku_names: Vec<String> },
    RoundEnded { reason: RoundEndReasonView },
    ExhaustiveDrawResult { tenpai: [bool; 4], payments: [i32; 4] },
}

#[derive(Debug, Clone)]
pub enum RoundEndReasonView {
    ExhaustiveDraw,
    Win { winner: PlayerId, is_tsumo: bool },
    MultiWin { winners: Vec<PlayerId> },
    KyuushuKyuuhai,
    SuufonRenda,
    SuuchaRiichi,
    SuuKantsu,
}

/// What the player to move may do, as sent to that player.
#[derive(Debug, Clone)]
pub struct ActionRequest {
    pub player: PlayerId,
    pub can_tsumo: bool,
    pub can_riichi: bool,
    pub riichi_options: Vec<Tile>,
    pub discard_options: Vec<Tile>,
    pub ankan_options: Vec<Tile>,
    pub kakan_options: Vec<(usize, Tile)>,
    pub can_kyuushu: bool,
}

/// The calls offered to one player on a discard.
#[derive(Debug, Clone)]
pub struct CallRequest {
    pub player: PlayerId,
    pub options: Vec<CallOptionView>,
}

#[derive(Debug, Clone, Copy)]
pub struct CallOptionView {
    pub player: PlayerId,
    pub call_type: CallTypeView,
}

#[derive(Debug, Clone, Copy)]
pub enum CallTypeView {
    Ron,
    Minkan { hand_tiles: [Tile; 3] },
    Pon { hand_tiles: [Tile; 2] },
    Chi { hand_tiles: [Tile; 2] },
}

#[derive(Debug, Clone)]
pub struct RoundResultView {
    pub reason: RoundEndReasonView,
    pub point_changes: [i32; 4],
}

#[derive(Debug, Clone)]
pub struct AnalysisInfo {
    pub discard_options: Vec<DiscardOptionView>,
    pub acceptance: Vec<AcceptanceInfoView>,
    pub improvement: Vec<AcceptanceInfoView>,
    pub current_shanten: i8,
}

#[derive(Debug, Clone)]
pub struct DiscardOptionView {
    pub tile: Tile,
    pub shanten: i8,
    pub acceptance_count: usize,
    pub improvement_count: usize,
}

#[derive(Debug, Clone)]
pub struct AcceptanceInfoView {
    pub tile_type: TileType,
    pub copies: usize,
}

/// The body of a request to join a room.
#[derive(Debug, Clone)]
pub struct JoinRequest {
    pub nickname: String,
}

/// The query of a websocket connection to a room.
#[derive(Debug, Clone)]
pub struct WebSocketQuery {
    pub room_id: String,
    pub token: String,
    pub last_event_id: u64,
}

/// The body of a request to change readiness.
#[derive(Debug, Clone)]
pub struct ReadyRequest {
    pub token: String,
    pub ready: bool,
}

/// The body of a request to start the game.
#[derive(Debug, Clone)]
pub struct StartRequest {
    pub token: String,
}

} // verus!
