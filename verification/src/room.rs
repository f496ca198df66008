use vstd::prelude::*;
use crate::player::PlayerId;
use crate::text::{blank, is_blank, same_text, text_from_chars};

verus! {

/// Who plays a seat: its human, an AI filling an empty seat, or an AI
/// standing in for a human who dropped out.
#[derive(Debug, Clone, Copy, PartialEq, Eq, Structural)]
pub enum SeatController {
    Human,
    AiFill,
    AiTakeover,
}

#[derive(Debug, Clone, Copy, PartialEq, Eq, Structural)]
pub enum RoomError {
    NotFound,
    Full,
    Started,
    InvalidPlayer,
    NotAllReady,
    InvalidToken,
    EmptyNickname,
    GameNotStarted,
    NotRoomOwner,
    InvalidAiCount,
    NoHumanPlayers,
}

/// The text shown for each room error.
pub open spec fn room_error_text(e: RoomError) -> Seq<char> {
    match e {
        RoomError::NotFound => "房间不存在"@,
        RoomError::Full => "房间已满"@,
        RoomError::Started => "游戏已经开始"@,
        RoomError::InvalidPlayer => "玩家座位无效"@,
        RoomError::NotAllReady => "所有玩家准备后才能开始"@,
        RoomError::InvalidToken => "连接凭证无效"@,
        RoomError::EmptyNickname => "昵称不能为空"@,
        RoomError::GameNotStarted => "游戏尚未开始"@,
        RoomError::NotRoomOwner => "只有房主可以执行此操作"@,
        RoomError::InvalidAiCount => "AI 数量必须在 0 到 3 之间且能组成四个座位"@,
        RoomError::NoHumanPlayers => "至少需要一名真人玩家"@,
    }
}

impl RoomError {
    /// The text shown to a player for the error.
    pub fn message(&self) -> (m: &'static str)
        ensures
            m@ == room_error_text(*self),
    {
        match self {
            RoomError::NotFound => "房间不存在",
            RoomError::Full => "房间已满",
            RoomError::Started => "游戏已经开始",
            RoomError::InvalidPlayer => "玩家座位无效",
            RoomError::NotAllReady => "所有玩家准备后才能开始",
            RoomError::InvalidToken => "连接凭证无效",
            RoomError::EmptyNickname => "昵称不能为空",
            RoomError::GameNotStarted => "游戏尚未开始",
            RoomError::NotRoomOwner => "只有房主可以执行此操作",
            RoomError::InvalidAiCount => "AI 数量必须在 0 到 3 之间且能组成四个座位",
            RoomError::NoHumanPlayers => "至少需要一名真人玩家",
        }
    }
}

#[derive(Debug)]
pub struct RoomPlayer {
    pub id: PlayerId,
    pub nickname: String,
    pub token: Option<String>,
    pub ready: bool,
    pub connected: bool,
    pub controller: SeatController,
}

/// A seat as the contracts see it.
pub ghost struct SeatView {
    pub id: PlayerId,
    pub nickname: Seq<char>,
    pub token: Option<Seq<char>>,
    pub ready: bool,
    pub connected: bool,
    pub controller: SeatController,
}

pub open spec fn token_view(t: Option<String>) -> Option<Seq<char>> {
    match t {
        Some(s) => Some(s@),
        None => None,
    }
}

impl View for RoomPlayer {
    type V = SeatView;

    open spec fn view(&self) -> SeatView {
        SeatView {
            id: self.id,
            nickname: self.nickname@,
            token: token_view(self.token),
            ready: self.ready,
            connected: self.connected,
            controller: self.controller,
        }
    }
}

pub open spec fn seat_view(s: Option<RoomPlayer>) -> Option<SeatView> {
    match s {
        Some(p) => Some(p@),
        None => None,
    }
}

/// The room as the contracts see it.
pub ghost struct RoomState {
    pub id: Seq<char>,
    pub seats: Seq<Option<SeatView>>,
    pub started: bool,
    pub owner: Option<PlayerId>,
    pub generations: Seq<u64>,
}

/// A seat of the room holds the token.
pub open spec fn holds_token(s: Option<SeatView>, token: Seq<char>) -> bool {
    s matches Some(p) && p.token == Some(token)
}

/// The first seat from `i` on that holds the token.
pub open spec fn token_seat_from(seats: Seq<Option<SeatView>>, token: Seq<char>, i: int) -> Option<int>
    decreases seats.len() - i,
{
    if i < 0 || i >= seats.len() {
        None
    } else if holds_token(seats[i], token) {
        Some(i)
    } else {
        token_seat_from(seats, token, i + 1)
    }
}

pub open spec fn token_seat(r: RoomState, token: Seq<char>) -> Option<int> {
    token_seat_from(r.seats, token, 0)
}

/// The first empty seat from `i` on.
pub open spec fn empty_seat_from(seats: Seq<Option<SeatView>>, i: int) -> Option<int>
    decreases seats.len() - i,
{
    if i < 0 || i >= seats.len() {
        None
    } else if seats[i] is None {
        Some(i)
    } else {
        empty_seat_from(seats, i + 1)
    }
}

/// Seats keep their index as their id; four seats and four generations.
pub open spec fn room_wf(r: RoomState) -> bool {
    &&& r.seats.len() == 4
    &&& r.generations.len() == 4
    &&& forall|i: int| 0 <= i < 4 ==> (#[trigger] r.seats[i] matches Some(p) ==> p.id == PlayerId(i as usize))
}

/// The seat of `player`, if it is taken.
pub open spec fn seat_of(r: RoomState, player: PlayerId) -> Option<SeatView> {
    if player.0 < 4 {
        r.seats[player.0 as int]
    } else {
        None
    }
}

/// Every seat is taken, by an AI or by a human who is ready.
pub open spec fn all_ready_spec(r: RoomState) -> bool {
    forall|i: int|
        0 <= i < 4 ==> (#[trigger] r.seats[i] matches Some(p) && (p.controller != SeatController::Human
            || p.ready))
}

pub open spec fn is_human(s: Option<SeatView>) -> bool {
    s matches Some(p) && p.controller == SeatController::Human
}

/// The human seats among the first `n`.
pub open spec fn humans_below(seats: Seq<Option<SeatView>>, n: int) -> int
    decreases n,
{
    if n <= 0 {
        0
    } else {
        humans_below(seats, n - 1) + if is_human(seats[n - 1]) {
            1int
        } else {
            0int
        }
    }
}

pub open spec fn empties_below(seats: Seq<Option<SeatView>>, n: int) -> int
    decreases n,
{
    if n <= 0 {
        0
    } else {
        empties_below(seats, n - 1) + if seats[n - 1] is None {
            1int
        } else {
            0int
        }
    }
}

/// The seats without their AI fill.
pub open spec fn without_fill(seats: Seq<Option<SeatView>>) -> Seq<Option<SeatView>> {
    seats.map_values(
        |s: Option<SeatView>|
            if s matches Some(p) && p.controller == SeatController::AiFill {
                None
            } else {
                s
            },
    )
}

/// The AI that fills seat `i`.
pub open spec fn ai_seat(i: int) -> SeatView {
    SeatView {
        id: PlayerId(i as usize),
        nickname: seq!['A', 'I'],
        token: None,
        ready: true,
        connected: true,
        controller: SeatController::AiFill,
    }
}

/// Fills `n` of the empty seats below `i` with AI, from the back.
pub open spec fn fill_ai(seats: Seq<Option<SeatView>>, n: int, i: int) -> Seq<Option<SeatView>>
    decreases i,
{
    if i <= 0 || n <= 0 {
        seats
    } else if seats[i - 1] is None {
        fill_ai(seats.update(i - 1, Some(ai_seat(i - 1))), n - 1, i - 1)
    } else {
        fill_ai(seats, n, i - 1)
    }
}

/// Lower-case hexadecimal digit of a nibble.
pub open spec fn hex_digit(n: int) -> char {
    if n < 10 {
        (('0' as int) + n) as char
    } else {
        (('a' as int) + n - 10) as char
    }
}

/// Upper-case hexadecimal digit of a nibble.
pub open spec fn hex_digit_upper(n: int) -> char {
    if n < 10 {
        (('0' as int) + n) as char
    } else {
        (('A' as int) + n - 10) as char
    }
}

/// Each byte as two lower-case hexadecimal digits.
pub open spec fn hex_text(bytes: Seq<u8>) -> Seq<char>
    decreases bytes.len(),
{
    if bytes.len() == 0 {
        seq![]
    } else {
        hex_text(bytes.drop_last()) + seq![hex_digit((bytes.last() / 16) as int), hex_digit((bytes.last() % 16) as int)]
    }
}

/// A join token: 32 random bytes written as 64 lower-case hex digits.
pub open spec fn is_token_text(t: Seq<char>) -> bool {
    exists|bytes: Seq<u8>| bytes.len() == 32 && t == #[trigger] hex_text(bytes)
}

/// `rand::RngCore::fill_bytes` on `rand::thread_rng()`: 32 bytes from the
/// thread-local generator seeded by the operating system. Nothing is said
/// of the bytes; the call panics only when the operating system's random
/// source fails, when the generator is first seeded or when it reseeds.
#[verifier::external_body]
fn random_bytes() -> (bytes: [u8; 32]) {
    let mut bytes = [0u8; 32];
    rand::RngCore::fill_bytes(&mut rand::thread_rng(), &mut bytes);
    bytes
}

fn hex_char(n: u8, upper: bool) -> (c: char)
    requires
        n < 16,
    ensures
        !upper ==> c == hex_digit(n as int),
        upper ==> c == hex_digit_upper(n as int),
{
    if n < 10 {
        (('0' as u8) + n) as char
    } else if upper {
        (('A' as u8) + n - 10) as char
    } else {
        (('a' as u8) + n - 10) as char
    }
}

/// The bytes as lower-case hexadecimal text.
fn hex_encode(bytes: &[u8; 32]) -> (s: String)
    ensures
        s@ == hex_text(bytes@),
{
    let mut chars: Vec<char> = Vec::new();
    let mut i: usize = 0;
    while i < 32
        invariant
            i <= 32,
            bytes@.len() == 32,
            chars@ == hex_text(bytes@.take(i as int)),
        decreases 32 - i,
    {
        let b = bytes[i];
        chars.push(hex_char(b / 16, false));
        chars.push(hex_char(b % 16, false));
        assert(bytes@.take(i + 1).drop_last() =~= bytes@.take(i as int));
        assert(chars@ =~= hex_text(bytes@.take(i + 1)));
        i += 1;
    }
    assert(bytes@.take(32) =~= bytes@);
    text_from_chars(&chars)
}

/// A fresh join token.
fn new_token() -> (t: String)
    ensures
        is_token_text(t@),
{
    let bytes = random_bytes();
    let t = hex_encode(&bytes);
    assert(bytes@.len() == 32 && t@ == hex_text(bytes@));
    t
}

fn holds(seat: &Option<RoomPlayer>, token: &str) -> (r: bool)
    ensures
        r == holds_token(seat_view(*seat), token@),
{
    match seat {
        Some(p) => match &p.token {
            Some(t) => same_text(t.as_str(), token),
            None => false,
        },
        None => false,
    }
}

proof fn lemma_empty_seat_from(seats: Seq<Option<SeatView>>, i: int)
    requires
        0 <= i,
    ensures
        empty_seat_from(seats, i) matches Some(k) ==> i <= k < seats.len() && seats[k] is None,
        empty_seat_from(seats, i) is None ==> forall|k: int| i <= k < seats.len() ==> (#[trigger] seats[k]) is Some,
    decreases seats.len() - i,
{
    if i < seats.len() && seats[i] is Some {
        lemma_empty_seat_from(seats, i + 1);
    }
}

proof fn lemma_token_seat_from(seats: Seq<Option<SeatView>>, token: Seq<char>, i: int)
    requires
        0 <= i,
    ensures
        token_seat_from(seats, token, i) matches Some(k) ==> i <= k < seats.len() && holds_token(seats[k], token),
        token_seat_from(seats, token, i) is None ==> forall|k: int|
            i <= k < seats.len() ==> !holds_token(#[trigger] seats[k], token),
    decreases seats.len() - i,
{
    if i < seats.len() && !holds_token(seats[i], token) {
        lemma_token_seat_from(seats, token, i + 1);
    }
}

/// One table of four seats, before and during its game.
pub struct Room {
    pub id: String,
    pub players: [Option<RoomPlayer>; 4],
    pub started: bool,
    pub owner: Option<PlayerId>,
    connection_generations: [u64; 4],
}

impl View for Room {
    type V = RoomState;

    closed spec fn view(&self) -> RoomState {
        RoomState {
            id: self.id@,
            seats: self.players@.map_values(|s: Option<RoomPlayer>| seat_view(s)),
            started: self.started,
            owner: self.owner,
            generations: self.connection_generations@,
        }
    }
}

/// The players of the taken seats among the first `n`, in seat order.
pub open spec fn seated(seats: Seq<Option<SeatView>>, n: int) -> Seq<SeatView>
    decreases n,
{
    if n <= 0 {
        seq![]
    } else {
        seated(seats, n - 1) + match seats[n - 1] {
            Some(p) => seq![p],
            None => seq![],
        }
    }
}

impl RoomPlayer {
    /// A copy of the player.
    pub fn copy(&self) -> (c: RoomPlayer)
        ensures
            c@ == self@,
    {
        let token = match &self.token {
            Some(t) => Some(t.clone()),
            None => None,
        };
        RoomPlayer {
            id: self.id,
            nickname: self.nickname.clone(),
            token,
            ready: self.ready,
            connected: self.connected,
            controller: self.controller,
        }
    }
}

impl Room {
    /// A copy of the room's id.
    pub fn id_text(&self) -> (s: String)
        ensures
            s@ == self@.id,
    {
        self.id.clone()
    }

    /// Whether the room's game has started.
    pub fn has_started(&self) -> (b: bool)
        ensures
            b == self@.started,
    {
        self.started
    }

    /// Copies of the seated players, in seat order.
    pub fn seated_players(&self) -> (v: Vec<RoomPlayer>)
        ensures
            v@.map_values(|p: RoomPlayer| p@) == seated(self@.seats, 4),
    {
        let mut v: Vec<RoomPlayer> = Vec::new();
        let mut i: usize = 0;
        while i < 4
            invariant
                i <= 4,
                self@.seats == self.players@.map_values(|s: Option<RoomPlayer>| seat_view(s)),
                v@.map_values(|p: RoomPlayer| p@) == seated(self@.seats, i as int),
            decreases 4 - i,
        {
            assert(self@.seats[i as int] == seat_view(self.players@[i as int]));
            match &self.players[i] {
                Some(p) => {
                    let c = p.copy();
                    let ghost before = v@;
                    v.push(c);
                    assert(v@.map_values(|p: RoomPlayer| p@) =~= before.map_values(|p: RoomPlayer| p@).push(c@));
                },
                None => {},
            }
            i += 1;
        }
        v
    }
}

/// The next connection generation: one more, wrapping at the largest `u64`.
pub open spec fn next_generation(g: u64) -> u64 {
    if g == u64::MAX {
        0
    } else {
        (g + 1) as u64
    }
}

pub open spec fn with_seat(r: RoomState, i: int, s: SeatView) -> RoomState {
    RoomState { seats: r.seats.update(i, Some(s)), ..r }
}

pub open spec fn bump_generation(r: RoomState, i: int) -> RoomState {
    RoomState { generations: r.generations.update(i, next_generation(r.generations[i])), ..r }
}

/// The room after a human takes seat `i` with the nickname and token; the
/// first to join owns the room.
pub open spec fn join_state(r: RoomState, i: int, nickname: Seq<char>, token: Seq<char>) -> RoomState {
    RoomState {
        seats: r.seats.update(
            i,
            Some(
                SeatView {
                    id: PlayerId(i as usize),
                    nickname,
                    token: Some(token),
                    ready: false,
                    connected: true,
                    controller: SeatController::Human,
                },
            ),
        ),
        owner: if r.owner is None {
            Some(PlayerId(i as usize))
        } else {
            r.owner
        },
        ..r
    }
}

/// What joining does: refused once started, with a blank nickname, or
/// with no empty seat (nothing changes); else the first empty seat is
/// taken with a fresh token.
pub open spec fn join_outcome(
    o: RoomState,
    nickname: Seq<char>,
    r: Result<(PlayerId, String), RoomError>,
    f: RoomState,
) -> bool {
    if o.started {
        r == Err::<(PlayerId, String), RoomError>(RoomError::Started) && f == o
    } else if blank(nickname) {
        r == Err::<(PlayerId, String), RoomError>(RoomError::EmptyNickname) && f == o
    } else {
        match empty_seat_from(o.seats, 0) {
            None => r == Err::<(PlayerId, String), RoomError>(RoomError::Full) && f == o,
            Some(i) => r matches Ok((player, token)) && player == PlayerId(i as usize) && is_token_text(token@)
                && f == join_state(o, i, nickname, token@),
        }
    }
}

/// Seat `i` reconnected: an AI stand-in hands the seat back to its human
/// and starts a new connection generation.
pub open spec fn connect_state(r: RoomState, i: int) -> RoomState {
    let p = r.seats[i]->Some_0;
    if p.controller == SeatController::AiTakeover {
        bump_generation(with_seat(r, i, SeatView { controller: SeatController::Human, connected: true, ..p }), i)
    } else {
        with_seat(r, i, SeatView { connected: true, ..p })
    }
}

/// The ids of the seats `< n` that an AI plays, in seat order.
pub open spec fn ai_ids(seats: Seq<Option<SeatView>>, n: int) -> Seq<PlayerId>
    decreases n,
{
    if n <= 0 {
        seq![]
    } else {
        ai_ids(seats, n - 1) + match seats[n - 1] {
            Some(p) => if p.controller == SeatController::AiFill || p.controller
                == SeatController::AiTakeover {
                seq![p.id]
            } else {
                seq![]
            },
            None => seq![],
        }
    }
}

/// The seat that holds the token, as a player id.
pub open spec fn ready_seat(o: RoomState, token: Seq<char>) -> PlayerId {
    PlayerId(token_seat(o, token)->Some_0 as usize)
}

/// What setting readiness by token does: refused with `InvalidToken` when
/// no seat holds it, once started, or for a seat an AI plays (nothing
/// changes); else that seat's readiness is set.
pub open spec fn ready_by_token_outcome(
    o: RoomState,
    token: Seq<char>,
    ready: bool,
    r: Result<PlayerId, RoomError>,
    f: RoomState,
) -> bool {
    match token_seat(o, token) {
        None => r == Err::<PlayerId, RoomError>(RoomError::InvalidToken) && f == o,
        Some(i) => if o.started {
            r == Err::<PlayerId, RoomError>(RoomError::Started) && f == o
        } else if o.seats[i]->Some_0.controller != SeatController::Human {
            r == Err::<PlayerId, RoomError>(RoomError::InvalidPlayer) && f == o
        } else {
            r == Ok::<PlayerId, RoomError>(ready_seat(o, token)) && f == with_seat(
                o,
                i,
                SeatView { ready, ..o.seats[i]->Some_0 },
            )
        },
    }
}

impl Room {
    /// An empty room that nobody owns yet.
    pub fn new(id: String) -> (r: Self)
        ensures
            room_wf(r@),
            r@ == (RoomState {
                id: id@,
                seats: seq![None, None, None, None],
                started: false,
                owner: None,
                generations: seq![0, 0, 0, 0],
            }),
    {
        let r = Room { id, players: [None, None, None, None], started: false, owner: None, connection_generations: [0, 0, 0, 0] };
        assert(r@.seats =~= seq![None, None, None, None]);
        assert(r@.generations =~= seq![0u64, 0, 0, 0]);
        r
    }

    fn first_empty(&self) -> (i: Option<usize>)
        requires
            room_wf(self@),
        ensures
            i == (match empty_seat_from(self@.seats, 0) {
                Some(k) => Some(k as usize),
                None => None,
            }),
            i matches Some(k) ==> k < 4,
            empty_seat_from(self@.seats, 0) matches Some(k) ==> 0 <= k < 4 && self@.seats[k] is None,
    {
        proof {
            lemma_empty_seat_from(self@.seats, 0);
        }
        let mut k: usize = 0;
        while k < 4
            invariant
                k <= 4,
                room_wf(self@),
                empty_seat_from(self@.seats, 0) == empty_seat_from(self@.seats, k as int),
            decreases 4 - k,
        {
            assert(self@.seats[k as int] == seat_view(self.players@[k as int]));
            if self.players[k].is_none() {
                return Some(k);
            }
            k += 1;
        }
        None
    }

    fn token_index(&self, token: &str) -> (i: Option<usize>)
        requires
            room_wf(self@),
        ensures
            i == (match token_seat(self@, token@) {
                Some(k) => Some(k as usize),
                None => None,
            }),
            i matches Some(k) ==> k < 4,
            token_seat(self@, token@) matches Some(k) ==> 0 <= k < 4 && holds_token(self@.seats[k], token@),
    {
        proof {
            lemma_token_seat_from(self@.seats, token@, 0);
        }
        let mut k: usize = 0;
        while k < 4
            invariant
                k <= 4,
                room_wf(self@),
                token_seat(self@, token@) == token_seat_from(self@.seats, token@, k as int),
            decreases 4 - k,
        {
            assert(self@.seats[k as int] == seat_view(self.players@[k as int]));
            if holds(&self.players[k], token) {
                return Some(k);
            }
            k += 1;
        }
        None
    }

    /// Seats a new human in the first empty seat, with a fresh token (see
    /// `join_outcome`).
    pub fn join(&mut self, nickname: String) -> (r: Result<(PlayerId, String), RoomError>)
        requires
            room_wf(old(self)@),
        ensures
            room_wf(final(self)@),
            join_outcome(old(self)@, nickname@, r, final(self)@),
    {
        if self.started {
            return Err(RoomError::Started);
        }
        if is_blank(nickname.as_str()) {
            return Err(RoomError::EmptyNickname);
        }
        let index = match self.first_empty() {
            Some(i) => i,
            None => {
                return Err(RoomError::Full);
            },
        };
        let player = PlayerId(index);
        let token = new_token();
        let kept = token.clone();
        let ghost before = self@;
        self.players[index] = Some(
            RoomPlayer {
                id: player,
                nickname,
                token: Some(kept),
                ready: false,
                connected: true,
                controller: SeatController::Human,
            },
        );
        if self.owner.is_none() {
            self.owner = Some(player);
        }
        assert(self@.seats =~= join_state(before, index as int, nickname@, token@).seats);
        Ok((player, token))
    }

    /// The seat of a player, if it is taken.
    pub fn player(&self, player: PlayerId) -> (r: Result<&RoomPlayer, RoomError>)
        requires
            room_wf(self@),
        ensures
            seat_of(self@, player) is None ==> r == Err::<&RoomPlayer, RoomError>(RoomError::InvalidPlayer),
            seat_of(self@, player) matches Some(s) ==> r matches Ok(p) && p@ == s,
    {
        if player.0 >= 4 {
            return Err(RoomError::InvalidPlayer);
        }
        assert(self@.seats[player.0 as int] == seat_view(self.players@[player.0 as int]));
        match &self.players[player.0] {
            Some(p) => Ok(p),
            None => Err(RoomError::InvalidPlayer),
        }
    }

    /// The seat that holds the token.
    pub fn player_by_token(&self, token: &str) -> (r: Result<PlayerId, RoomError>)
        requires
            room_wf(self@),
        ensures
            token_seat(self@, token@) is None ==> r == Err::<PlayerId, RoomError>(RoomError::InvalidToken),
            token_seat(self@, token@) matches Some(i) ==> r == Ok::<PlayerId, RoomError>(PlayerId(i as usize)),
    {
        match self.token_index(token) {
            Some(i) => {
                assert(self@.seats[i as int] == seat_view(self.players@[i as int]));
                match &self.players[i] {
                    Some(p) => Ok(p.id),
                    None => Err(RoomError::InvalidToken),
                }
            },
            None => Err(RoomError::InvalidToken),
        }
    }
}

impl Room {
    /// Takes seat `i` out, to be changed and put back.
    fn take_seat(&mut self, i: usize) -> (p: RoomPlayer)
        requires
            i < 4,
            room_wf(old(self)@),
            old(self)@.seats[i as int] is Some,
        ensures
            p@ == old(self)@.seats[i as int]->Some_0,
            final(self)@ == (RoomState { seats: old(self)@.seats.update(i as int, None), ..old(self)@ }),
    {
        assert(self@.seats[i as int] == seat_view(self.players@[i as int]));
        let ghost before = self@;
        let taken = self.players[i].take();
        assert(self@.seats =~= before.seats.update(i as int, None));
        match taken {
            Some(p) => p,
            None => {
                proof {
                    assert(false);
                }
                RoomPlayer {
                    id: PlayerId(0),
                    nickname: String::new(),
                    token: None,
                    ready: false,
                    connected: false,
                    controller: SeatController::Human,
                }
            },
        }
    }

    /// Puts a seat back.
    fn put_seat(&mut self, i: usize, p: RoomPlayer)
        requires
            i < 4,
        ensures
            final(self)@ == (RoomState { seats: old(self)@.seats.update(i as int, Some(p@)), ..old(self)@ }),
    {
        let ghost before = self@;
        self.players[i] = Some(p);
        assert(self@.seats =~= before.seats.update(i as int, Some(p@)));
    }

    fn bump(&mut self, i: usize) -> (g: u64)
        requires
            i < 4,
            room_wf(old(self)@),
        ensures
            final(self)@ == bump_generation(old(self)@, i as int),
            g == next_generation(old(self)@.generations[i as int]),
    {
        let ghost before = self@;
        let g = self.connection_generations[i];
        let n = if g == u64::MAX {
            0
        } else {
            g + 1
        };
        self.connection_generations[i] = n;
        assert(self@.generations =~= before.generations.update(i as int, n));
        n
    }

    /// Marks the token's seat connected; an AI stand-in gives the seat
    /// back to its human and the connection generation moves on.
    pub fn connect_by_token(&mut self, token: &str) -> (r: Result<PlayerId, RoomError>)
        requires
            room_wf(old(self)@),
        ensures
            room_wf(final(self)@),
            token_seat(old(self)@, token@) is None ==> r == Err::<PlayerId, RoomError>(RoomError::InvalidToken)
                && final(self)@ == old(self)@,
            token_seat(old(self)@, token@) matches Some(i) ==> (if old(self)@.seats[i]->Some_0.controller
                == SeatController::AiFill {
                r == Err::<PlayerId, RoomError>(RoomError::InvalidToken) && final(self)@ == old(self)@
            } else {
                r == Ok::<PlayerId, RoomError>(PlayerId(i as usize)) && final(self)@ == connect_state(
                    old(self)@,
                    i,
                )
            }),
    {
        let i = match self.token_index(token) {
            Some(i) => i,
            None => {
                return Err(RoomError::InvalidToken);
            },
        };
        let ghost before = self@;
        let mut p = self.take_seat(i);
        if p.controller == SeatController::AiFill {
            self.put_seat(i, p);
            assert(self@.seats =~= before.seats);
            return Err(RoomError::InvalidToken);
        }
        let takeover = p.controller == SeatController::AiTakeover;
        if takeover {
            p.controller = SeatController::Human;
        }
        p.connected = true;
        let id = p.id;
        self.put_seat(i, p);
        if takeover {
            self.bump(i);
        }
        assert(self@.seats =~= connect_state(before, i as int).seats);
        Ok(id)
    }

    /// Marks the token's human seat disconnected and starts a new
    /// connection generation, which it returns.
    pub fn disconnect_by_token(&mut self, token: &str) -> (r: Result<(PlayerId, u64), RoomError>)
        requires
            room_wf(old(self)@),
        ensures
            room_wf(final(self)@),
            token_seat(old(self)@, token@) is None ==> r == Err::<(PlayerId, u64), RoomError>(
                RoomError::InvalidToken,
            ) && final(self)@ == old(self)@,
            token_seat(old(self)@, token@) matches Some(i) ==> (if old(self)@.seats[i]->Some_0.controller
                != SeatController::Human {
                r == Err::<(PlayerId, u64), RoomError>(RoomError::InvalidToken) && final(self)@ == old(self)@
            } else {
                r == Ok::<(PlayerId, u64), RoomError>(
                    (PlayerId(i as usize), next_generation(old(self)@.generations[i])),
                ) && final(self)@ == bump_generation(
                    with_seat(old(self)@, i, SeatView { connected: false, ..old(self)@.seats[i]->Some_0 }),
                    i,
                )
            }),
    {
        let i = match self.token_index(token) {
            Some(i) => i,
            None => {
                return Err(RoomError::InvalidToken);
            },
        };
        let ghost before = self@;
        let mut p = self.take_seat(i);
        if p.controller != SeatController::Human {
            self.put_seat(i, p);
            assert(self@.seats =~= before.seats);
            return Err(RoomError::InvalidToken);
        }
        p.connected = false;
        let id = p.id;
        self.put_seat(i, p);
        assert(self@.seats =~= with_seat(
            before,
            i as int,
            SeatView { connected: false, ..before.seats[i as int]->Some_0 },
        ).seats);
        let g = self.bump(i);
        Ok((id, g))
    }

    /// Sets a human's readiness before the game.
    pub fn set_ready(&mut self, player: PlayerId, ready: bool) -> (r: Result<(), RoomError>)
        requires
            room_wf(old(self)@),
        ensures
            room_wf(final(self)@),
            old(self)@.started ==> r == Err::<(), RoomError>(RoomError::Started) && final(self)@ == old(self)@,
            !old(self)@.started && !is_human(seat_of(old(self)@, player)) ==> r == Err::<(), RoomError>(
                RoomError::InvalidPlayer,
            ) && final(self)@ == old(self)@,
            !old(self)@.started && is_human(seat_of(old(self)@, player)) ==> r == Ok::<(), RoomError>(())
                && final(self)@ == with_seat(
                old(self)@,
                player.0 as int,
                SeatView { ready, ..old(self)@.seats[player.0 as int]->Some_0 },
            ),
    {
        if self.started {
            return Err(RoomError::Started);
        }
        if player.0 >= 4 {
            return Err(RoomError::InvalidPlayer);
        }
        let i = player.0;
        assert(self@.seats[i as int] == seat_view(self.players@[i as int]));
        let human = match &self.players[i] {
            Some(p) => p.controller == SeatController::Human,
            None => false,
        };
        if !human {
            return Err(RoomError::InvalidPlayer);
        }
        let ghost before = self@;
        let mut p = self.take_seat(i);
        p.ready = ready;
        self.put_seat(i, p);
        assert(self@.seats =~= with_seat(before, i as int, SeatView { ready, ..before.seats[i as int]->Some_0 }).seats);
        Ok(())
    }

    /// Sets readiness by token.
    pub fn set_ready_with_token(&mut self, token: &str, ready: bool) -> (r: Result<PlayerId, RoomError>)
        requires
            room_wf(old(self)@),
        ensures
            room_wf(final(self)@),
            ready_by_token_outcome(old(self)@, token@, ready, r, final(self)@),
    {
        proof {
            lemma_token_seat_from(self@.seats, token@, 0);
        }
        let player = match self.player_by_token(token) {
            Ok(p) => p,
            Err(e) => {
                return Err(e);
            },
        };
        match self.set_ready(player, ready) {
            Ok(()) => Ok(player),
            Err(e) => Err(e),
        }
    }

    /// Every seat is taken by an AI or by a ready human.
    pub fn all_ready(&self) -> (b: bool)
        requires
            room_wf(self@),
        ensures
            b == all_ready_spec(self@),
    {
        let mut k: usize = 0;
        while k < 4
            invariant
                k <= 4,
                room_wf(self@),
                forall|j: int|
                    0 <= j < k ==> (#[trigger] self@.seats[j] matches Some(p) && (p.controller
                        != SeatController::Human || p.ready)),
            decreases 4 - k,
        {
            assert(self@.seats[k as int] == seat_view(self.players@[k as int]));
            let ok = match &self.players[k] {
                Some(p) => p.controller != SeatController::Human || p.ready,
                None => false,
            };
            if !ok {
                return false;
            }
            k += 1;
        }
        true
    }
}

proof fn lemma_humans_below_bounds(seats: Seq<Option<SeatView>>, n: int)
    requires
        0 <= n <= seats.len(),
    ensures
        0 <= humans_below(seats, n) <= n,
        0 <= empties_below(seats, n) <= n,
    decreases n,
{
    if n > 0 {
        lemma_humans_below_bounds(seats, n - 1);
    }
}

impl Room {
    fn owned_by(&self, requester: PlayerId) -> (b: bool)
        ensures
            b == (self@.owner == Some(requester)),
    {
        match self.owner {
            Some(o) => o.0 == requester.0,
            None => false,
        }
    }

    fn human_count(&self) -> (n: usize)
        requires
            room_wf(self@),
        ensures
            n == humans_below(self@.seats, 4),
            n <= 4,
    {
        let mut n: usize = 0;
        let mut k: usize = 0;
        while k < 4
            invariant
                k <= 4,
                room_wf(self@),
                n == humans_below(self@.seats, k as int),
                n <= k,
            decreases 4 - k,
        {
            assert(self@.seats[k as int] == seat_view(self.players@[k as int]));
            let human = match &self.players[k] {
                Some(p) => p.controller == SeatController::Human,
                None => false,
            };
            if human {
                n += 1;
            }
            k += 1;
        }
        n
    }

    fn empty_count(&self) -> (n: usize)
        requires
            room_wf(self@),
        ensures
            n == empties_below(self@.seats, 4),
            n <= 4,
    {
        let mut n: usize = 0;
        let mut k: usize = 0;
        while k < 4
            invariant
                k <= 4,
                room_wf(self@),
                n == empties_below(self@.seats, k as int),
                n <= k,
            decreases 4 - k,
        {
            assert(self@.seats[k as int] == seat_view(self.players@[k as int]));
            if self.players[k].is_none() {
                n += 1;
            }
            k += 1;
        }
        n
    }

    fn clear_fill(&mut self)
        requires
            room_wf(old(self)@),
        ensures
            room_wf(final(self)@),
            final(self)@ == (RoomState { seats: without_fill(old(self)@.seats), ..old(self)@ }),
    {
        let ghost before = self@;
        assert(without_fill(before.seats).take(0) + before.seats.skip(0) =~= before.seats);
        let mut k: usize = 0;
        while k < 4
            invariant
                k <= 4,
                room_wf(self@),
                self@ == (RoomState {
                    seats: without_fill(before.seats).take(k as int) + before.seats.skip(k as int),
                    ..before
                }),
                before.seats.len() == 4,
            decreases 4 - k,
        {
            assert(self@.seats[k as int] == seat_view(self.players@[k as int]));
            let fill = match &self.players[k] {
                Some(p) => p.controller == SeatController::AiFill,
                None => false,
            };
            let ghost cur = self@;
            if fill {
                self.players[k] = None;
                assert(self@.seats =~= cur.seats.update(k as int, None));
            }
            assert(self@.seats =~= without_fill(before.seats).take(k + 1) + before.seats.skip(k + 1));
            k += 1;
        }
        assert(self@.seats =~= without_fill(before.seats));
    }

    /// Sets how many empty seats AI fills, before the game; only the owner
    /// may. Earlier AI fill is cleared first; the AI take the empty seats
    /// from the back.
    pub fn set_ai_count(&mut self, requester: PlayerId, ai_count: usize) -> (r: Result<(), RoomError>)
        requires
            room_wf(old(self)@),
        ensures
            room_wf(final(self)@),
            ({
                let o = old(self)@;
                let cleared = without_fill(o.seats);
                if o.started {
                    r == Err::<(), RoomError>(RoomError::Started) && final(self)@ == o
                } else if o.owner != Some(requester) {
                    r == Err::<(), RoomError>(RoomError::NotRoomOwner) && final(self)@ == o
                } else if ai_count > 3 || humans_below(o.seats, 4) + ai_count > 4 {
                    r == Err::<(), RoomError>(RoomError::InvalidAiCount) && final(self)@ == o
                } else if ai_count > empties_below(cleared, 4) {
                    r == Err::<(), RoomError>(RoomError::InvalidAiCount) && final(self)@ == (RoomState {
                        seats: cleared,
                        ..o
                    })
                } else {
                    r == Ok::<(), RoomError>(()) && final(self)@ == (RoomState {
                        seats: fill_ai(cleared, ai_count as int, 4),
                        ..o
                    })
                }
            }),
    {
        if self.started {
            return Err(RoomError::Started);
        }
        if !self.owned_by(requester) {
            return Err(RoomError::NotRoomOwner);
        }
        let human_count = self.human_count();
        if ai_count > 3 || human_count + ai_count > 4 {
            return Err(RoomError::InvalidAiCount);
        }
        self.clear_fill();
        let empty_seats = self.empty_count();
        if ai_count > empty_seats {
            return Err(RoomError::InvalidAiCount);
        }
        let ghost cleared = self@;
        let mut remaining = ai_count;
        let mut index: usize = 4;
        while index > 0 && remaining > 0
            invariant
                index <= 4,
                room_wf(self@),
                self@ == (RoomState { seats: self@.seats, ..cleared }),
                room_wf(cleared),
                fill_ai(self@.seats, remaining as int, index as int) == fill_ai(cleared.seats, ai_count as int, 4),
            decreases index,
        {
            index -= 1;
            assert(self@.seats[index as int] == seat_view(self.players@[index as int]));
            if self.players[index].is_none() {
                let name = text_from_chars(&vec!['A', 'I']);
                let ghost cur = self@;
                let p = RoomPlayer {
                    id: PlayerId(index),
                    nickname: name,
                    token: None,
                    ready: true,
                    connected: true,
                    controller: SeatController::AiFill,
                };
                assert(p@ == ai_seat(index as int));
                self.players[index] = Some(p);
                assert(self@.seats =~= cur.seats.update(index as int, Some(ai_seat(index as int))));
                remaining -= 1;
            }
        }
        Ok(())
    }

    /// The seats that an AI plays, in seat order.
    pub fn ai_players(&self) -> (v: Vec<PlayerId>)
        requires
            room_wf(self@),
        ensures
            v@ == ai_ids(self@.seats, 4),
    {
        let mut v: Vec<PlayerId> = Vec::new();
        let mut k: usize = 0;
        while k < 4
            invariant
                k <= 4,
                room_wf(self@),
                v@ == ai_ids(self@.seats, k as int),
            decreases 4 - k,
        {
            assert(self@.seats[k as int] == seat_view(self.players@[k as int]));
            match &self.players[k] {
                Some(p) => {
                    if p.controller == SeatController::AiFill || p.controller == SeatController::AiTakeover {
                        v.push(p.id);
                    }
                },
                None => {},
            }
            k += 1;
        }
        v
    }

    /// Starts the game; only the owner may, with a human at the table and
    /// every seat taken and ready.
    pub fn start(&mut self, requester: PlayerId) -> (r: Result<(), RoomError>)
        requires
            room_wf(old(self)@),
        ensures
            room_wf(final(self)@),
            ({
                let o = old(self)@;
                if o.started {
                    r == Err::<(), RoomError>(RoomError::Started) && final(self)@ == o
                } else if o.owner != Some(requester) {
                    r == Err::<(), RoomError>(RoomError::NotRoomOwner) && final(self)@ == o
                } else if humans_below(o.seats, 4) == 0 {
                    r == Err::<(), RoomError>(RoomError::NoHumanPlayers) && final(self)@ == o
                } else if !all_ready_spec(o) {
                    r == Err::<(), RoomError>(RoomError::NotAllReady) && final(self)@ == o
                } else {
                    r == Ok::<(), RoomError>(()) && final(self)@ == (RoomState { started: true, ..o })
                }
            }),
    {
        if self.started {
            return Err(RoomError::Started);
        }
        if !self.owned_by(requester) {
            return Err(RoomError::NotRoomOwner);
        }
        if self.human_count() == 0 {
            return Err(RoomError::NoHumanPlayers);
        }
        if self.empty_count() > 0 {
            proof {
                if all_ready_spec(self@) {
                    lemma_all_taken_no_empty(self@.seats, 4);
                }
            }
            return Err(RoomError::NotAllReady);
        }
        if !self.all_ready() {
            return Err(RoomError::NotAllReady);
        }
        self.started = true;
        Ok(())
    }

    /// Reconnects by token (see `connect_by_token`).
    pub fn reconnect(&mut self, token: &str) -> (r: Result<PlayerId, RoomError>)
        requires
            room_wf(old(self)@),
        ensures
            room_wf(final(self)@),
            token_seat(old(self)@, token@) is None ==> r == Err::<PlayerId, RoomError>(RoomError::InvalidToken)
                && final(self)@ == old(self)@,
            token_seat(old(self)@, token@) matches Some(i) ==> (if old(self)@.seats[i]->Some_0.controller
                == SeatController::AiFill {
                r == Err::<PlayerId, RoomError>(RoomError::InvalidToken) && final(self)@ == old(self)@
            } else {
                r == Ok::<PlayerId, RoomError>(PlayerId(i as usize)) && final(self)@ == connect_state(
                    old(self)@,
                    i,
                )
            }),
    {
        self.connect_by_token(token)
    }

    /// Lets an AI stand in for a disconnected human.
    pub fn mark_ai_takeover(&mut self, player: PlayerId) -> (r: Result<(), RoomError>)
        requires
            room_wf(old(self)@),
        ensures
            room_wf(final(self)@),
            ({
                let o = old(self)@;
                match seat_of(o, player) {
                    Some(p) => if p.controller != SeatController::Human || p.connected {
                        r == Err::<(), RoomError>(RoomError::InvalidPlayer) && final(self)@ == o
                    } else {
                        r == Ok::<(), RoomError>(()) && final(self)@ == with_seat(
                            o,
                            player.0 as int,
                            SeatView { controller: SeatController::AiTakeover, connected: true, ..p },
                        )
                    },
                    None => r == Err::<(), RoomError>(RoomError::InvalidPlayer) && final(self)@ == o,
                }
            }),
    {
        if player.0 >= 4 {
            return Err(RoomError::InvalidPlayer);
        }
        let i = player.0;
        assert(self@.seats[i as int] == seat_view(self.players@[i as int]));
        let allowed = match &self.players[i] {
            Some(p) => p.controller == SeatController::Human && !p.connected,
            None => {
                return Err(RoomError::InvalidPlayer);
            },
        };
        if !allowed {
            return Err(RoomError::InvalidPlayer);
        }
        let ghost before = self@;
        let mut p = self.take_seat(i);
        p.controller = SeatController::AiTakeover;
        p.connected = true;
        self.put_seat(i, p);
        assert(self@.seats =~= with_seat(
            before,
            i as int,
            SeatView {
                controller: SeatController::AiTakeover,
                connected: true,
                ..before.seats[i as int]->Some_0
            },
        ).seats);
        Ok(())
    }

    /// The connection generation of a taken seat.
    pub fn connection_generation(&self, player: PlayerId) -> (r: Result<u64, RoomError>)
        requires
            room_wf(self@),
        ensures
            seat_of(self@, player) is None ==> r == Err::<u64, RoomError>(RoomError::InvalidPlayer),
            seat_of(self@, player) is Some ==> r == Ok::<u64, RoomError>(self@.generations[player.0 as int]),
    {
        if player.0 >= 4 {
            return Err(RoomError::InvalidPlayer);
        }
        assert(self@.seats[player.0 as int] == seat_view(self.players@[player.0 as int]));
        if self.players[player.0].is_none() {
            return Err(RoomError::InvalidPlayer);
        }
        Ok(self.connection_generations[player.0])
    }
}

/// With every seat taken there is no empty seat.
proof fn lemma_all_taken_no_empty(seats: Seq<Option<SeatView>>, n: int)
    requires
        0 <= n <= seats.len(),
        forall|i: int| 0 <= i < n ==> (#[trigger] seats[i]) is Some,
    ensures
        empties_below(seats, n) == 0,
    decreases n,
{
    if n > 0 {
        lemma_all_taken_no_empty(seats, n - 1);
    }
}

/// The rooms of the server, each under its id.
pub struct RoomManager {
    rooms: Vec<Room>,
    next_room_id: u64,
}

/// The first room from `i` on with the id.
pub open spec fn room_index_from(rooms: Seq<RoomState>, id: Seq<char>, i: int) -> Option<int>
    decreases rooms.len() - i,
{
    if i < 0 || i >= rooms.len() {
        None
    } else if rooms[i].id == id {
        Some(i)
    } else {
        room_index_from(rooms, id, i + 1)
    }
}

pub open spec fn room_index(rooms: Seq<RoomState>, id: Seq<char>) -> Option<int> {
    room_index_from(rooms, id, 0)
}

/// Every room well formed, and no two under one id.
pub open spec fn manager_wf(rooms: Seq<RoomState>) -> bool {
    &&& forall|i: int| 0 <= i < rooms.len() ==> room_wf(#[trigger] rooms[i])
    &&& forall|i: int, j: int| 0 <= i < j < rooms.len() ==> #[trigger] rooms[i].id != #[trigger] rooms[j].id
}

/// The id of the `n`th room: `n` modulo 2^24 as six upper-case hex digits.
pub open spec fn room_id_text(n: u64) -> Seq<char> {
    let v = n as int % 0x1000000;
    Seq::new(6, |k: int| hex_digit_upper((v / place_value(k)) % 16))
}

/// The place value of hex digit `k` of six, most significant first.
pub open spec fn place_value(k: int) -> int {
    if k == 0 {
        0x100000
    } else if k == 1 {
        0x10000
    } else if k == 2 {
        0x1000
    } else if k == 3 {
        0x100
    } else if k == 4 {
        0x10
    } else {
        1
    }
}

impl View for RoomManager {
    type V = Seq<RoomState>;

    closed spec fn view(&self) -> Seq<RoomState> {
        self.rooms@.map_values(|r: Room| r@)
    }
}

impl RoomManager {
    /// The number that names the next room.
    pub closed spec fn next_number(&self) -> u64 {
        self.next_room_id
    }

    pub fn new() -> (m: Self)
        ensures
            m@ == Seq::<RoomState>::empty(),
            m.next_number() == 1,
    {
        let m = RoomManager { rooms: Vec::new(), next_room_id: 1 };
        assert(m@ =~= Seq::<RoomState>::empty());
        m
    }

    fn find(&self, id: &str) -> (i: Option<usize>)
        ensures
            i matches Some(k) ==> room_index(self@, id@) == Some(k as int) && k < self@.len()
                && self@[k as int].id == id@,
            i is None ==> room_index(self@, id@) is None,
    {
        proof {
            lemma_room_index_from(self@, id@, 0);
        }
        let mut k: usize = 0;
        while k < self.rooms.len()
            invariant
                k <= self.rooms@.len(),
                self@.len() == self.rooms@.len(),
                forall|j: int| 0 <= j < self.rooms@.len() ==> #[trigger] self@[j] == self.rooms@[j]@,
                room_index(self@, id@) == room_index_from(self@, id@, k as int),
            decreases self.rooms@.len() - k,
        {
            assert(self@[k as int] == self.rooms@[k as int]@);
            if same_text(self.rooms[k].id.as_str(), id) {
                return Some(k);
            }
            k += 1;
        }
        None
    }

    /// Opens a new, empty room and returns its id.
    pub fn create_room(&mut self) -> (id: String)
        requires
            manager_wf(old(self)@),
        ensures
            manager_wf(final(self)@),
            id@ == room_id_text(old(self).next_number()),
            final(self).next_number() == next_generation(old(self).next_number()),
            ({
                let fresh = RoomState {
                    id: id@,
                    seats: seq![None, None, None, None],
                    started: false,
                    owner: None,
                    generations: seq![0, 0, 0, 0],
                };
                match room_index(old(self)@, id@) {
                    Some(i) => final(self)@ == old(self)@.update(i, fresh),
                    None => final(self)@ == old(self)@.push(fresh),
                }
            }),
    {
        let n = self.next_room_id;
        self.next_room_id = if n == u64::MAX {
            0
        } else {
            n + 1
        };
        let id = hex_room_id(n);
        let room = Room::new(id.clone());
        let ghost before = self@;
        let ghost fresh = room@;
        match self.find(id.as_str()) {
            Some(i) => {
                self.rooms.set(i, room);
                assert(self@ =~= before.update(i as int, fresh));
            },
            None => {
                self.rooms.push(room);
                assert(self@ =~= before.push(fresh));
            },
        }
        proof {
            lemma_room_index_from(before, id@, 0);
            assert forall|i: int, j: int| 0 <= i < j < self@.len() implies #[trigger] self@[i].id
                != #[trigger] self@[j].id by {
                if i < before.len() && j < before.len() {
                    assert(before[i].id != before[j].id || i == j);
                }
            }
        }
        id
    }

    /// The room with the id.
    pub fn room(&self, id: &str) -> (r: Result<&Room, RoomError>)
        ensures
            room_index(self@, id@) is None ==> r == Err::<&Room, RoomError>(RoomError::NotFound),
            room_index(self@, id@) matches Some(i) ==> r matches Ok(room) && room@ == self@[i],
    {
        match self.find(id) {
            Some(i) => {
                assert(self@[i as int] == self.rooms@[i as int]@);
                Ok(&self.rooms[i])
            },
            None => Err(RoomError::NotFound),
        }
    }

    /// The room with the id, to change.
    pub fn room_mut(&mut self, id: &str) -> (r: Result<&mut Room, RoomError>)
        ensures
            room_index(old(self)@, id@) is None ==> r == Err::<&mut Room, RoomError>(RoomError::NotFound)
                && final(self)@ == old(self)@ && final(self).next_number() == old(self).next_number(),
            room_index(old(self)@, id@) matches Some(i) ==> r is Ok && (*r->Ok_0)@ == old(self)@[i]
                && final(self)@ == old(self)@.update(i, (*final(r->Ok_0))@) && final(self).next_number()
                == old(self).next_number(),
    {
        match self.find(id) {
            Some(i) => {
                assert(self@[i as int] == self.rooms@[i as int]@);
                Ok(&mut self.rooms[i])
            },
            None => Err(RoomError::NotFound),
        }
    }

    /// Joins the room with the id (see `Room::join`).
    pub fn join(&mut self, id: &str, nickname: &str) -> (r: Result<(PlayerId, String), RoomError>)
        requires
            manager_wf(old(self)@),
        ensures
            manager_wf(final(self)@),
            final(self).next_number() == old(self).next_number(),
            room_index(old(self)@, id@) is None ==> r == Err::<(PlayerId, String), RoomError>(
                RoomError::NotFound,
            ) && final(self)@ == old(self)@,
            room_index(old(self)@, id@) matches Some(i) ==> join_outcome(
                old(self)@[i],
                nickname@,
                r,
                final(self)@[i],
            ) && final(self)@ == old(self)@.update(i, final(self)@[i]),
    {
        let ghost before = self@;
        match self.find(id) {
            Some(i) => {
                assert(self@[i as int] == self.rooms@[i as int]@);
                assert(room_wf(self@[i as int]));
                let mut room = self.rooms.remove(i);
                let r = room.join(nickname.to_string());
                let ghost after = room@;
                self.rooms.insert(i, room);
                assert(self@ =~= before.update(i as int, after));
                assert forall|a: int, b: int| 0 <= a < b < self@.len() implies #[trigger] self@[a].id
                    != #[trigger] self@[b].id by {
                    assert(before[a].id != before[b].id);
                }
                r
            },
            None => Err(RoomError::NotFound),
        }
    }

    /// Removes the room with the id and hands it back.
    pub fn close_room(&mut self, id: &str) -> (r: Result<Room, RoomError>)
        requires
            manager_wf(old(self)@),
        ensures
            manager_wf(final(self)@),
            final(self).next_number() == old(self).next_number(),
            room_index(old(self)@, id@) is None ==> r is Err && r->Err_0 == RoomError::NotFound
                && final(self)@ == old(self)@,
            room_index(old(self)@, id@) matches Some(i) ==> r is Ok && r->Ok_0@ == old(self)@[i]
                && final(self)@ == old(self)@.remove(i),
    {
        let ghost before = self@;
        match self.find(id) {
            Some(i) => {
                let room = self.rooms.remove(i);
                assert(self@ =~= before.remove(i as int));
                Ok(room)
            },
            None => Err(RoomError::NotFound),
        }
    }
}

/// Looking a room up by id sees only the ids.
pub proof fn lemma_room_index_same_ids(a: Seq<RoomState>, b: Seq<RoomState>, id: Seq<char>, i: int)
    requires
        a.len() == b.len(),
        forall|k: int| 0 <= k < a.len() ==> (#[trigger] a[k]).id == b[k].id,
    ensures
        room_index_from(a, id, i) == room_index_from(b, id, i),
    decreases a.len() - i,
{
    if 0 <= i < a.len() {
        assert(a[i].id == b[i].id);
        lemma_room_index_same_ids(a, b, id, i + 1);
    }
}

pub proof fn lemma_room_index_from(rooms: Seq<RoomState>, id: Seq<char>, i: int)
    requires
        0 <= i,
    ensures
        room_index_from(rooms, id, i) matches Some(k) ==> i <= k < rooms.len() && rooms[k].id == id,
        room_index_from(rooms, id, i) is None ==> forall|k: int| i <= k < rooms.len() ==> (#[trigger] rooms[k]).id != id,
    decreases rooms.len() - i,
{
    if i < rooms.len() && rooms[i].id != id {
        lemma_room_index_from(rooms, id, i + 1);
    }
}

/// The six upper-case hex digits of `n` modulo 2^24.
fn hex_room_id(n: u64) -> (s: String)
    ensures
        s@ == room_id_text(n),
{
    let v = n % 0x1000000;
    let mut chars: Vec<char> = Vec::new();
    let mut k: usize = 0;
    while k < 6
        invariant
            k <= 6,
            v == n as int % 0x1000000,
            chars@ == room_id_text(n).take(k as int),
        decreases 6 - k,
    {
        let place: u64 = if k == 0 {
            0x100000
        } else if k == 1 {
            0x10000
        } else if k == 2 {
            0x1000
        } else if k == 3 {
            0x100
        } else if k == 4 {
            0x10
        } else {
            1
        };
        assert(place == place_value(k as int));
        let digit = ((v / place) % 16) as u8;
        chars.push(hex_char(digit, true));
        assert(chars@ =~= room_id_text(n).take(k + 1));
        k += 1;
    }
    assert(chars@ =~= room_id_text(n));
    text_from_chars(&chars)
}

/// The first human to join owns the room, and the owner never changes.
pub proof fn lemma_join_keeps_owner(
    o: RoomState,
    nickname: Seq<char>,
    r: Result<(PlayerId, String), RoomError>,
    f: RoomState,
)
    requires
        join_outcome(o, nickname, r, f),
    ensures
        o.owner is Some ==> f.owner == o.owner,
        o.owner is None && r is Ok ==> f.owner == Some(r->Ok_0.0),
{
}

/// After a join, the new token leads back to the seat it took, provided
/// no seat held that token before.
pub proof fn lemma_joined_token_finds_its_seat(
    o: RoomState,
    nickname: Seq<char>,
    r: Result<(PlayerId, String), RoomError>,
    f: RoomState,
)
    requires
        room_wf(o),
        join_outcome(o, nickname, r, f),
        r is Ok,
        forall|k: int| 0 <= k < 4 ==> !holds_token(#[trigger] o.seats[k], r->Ok_0.1@),
    ensures
        token_seat(f, r->Ok_0.1@) == Some(r->Ok_0.0.0 as int),
{
    let t = r->Ok_0.1@;
    let i = empty_seat_from(o.seats, 0)->Some_0;
    lemma_empty_seat_from(o.seats, 0);
    lemma_token_seat_from(f.seats, t, 0);
    assert(holds_token(f.seats[i], t));
    if token_seat(f, t) != Some(i) {
        let k = token_seat(f, t)->Some_0;
        assert(f.seats[k] == o.seats[k]);
    }
}

/// Setting the AI count leaves every human seat as it was.
pub proof fn lemma_ai_fill_keeps_humans(seats: Seq<Option<SeatView>>, n: int, k: int)
    requires
        seats.len() == 4,
        0 <= k < 4,
        is_human(seats[k]),
    ensures
        fill_ai(without_fill(seats), n, 4)[k] == seats[k],
{
    lemma_fill_keeps_taken(without_fill(seats), n, 4, k);
}

proof fn lemma_fill_keeps_taken(seats: Seq<Option<SeatView>>, n: int, i: int, k: int)
    requires
        0 <= i <= seats.len(),
        0 <= k < seats.len(),
        seats[k] is Some,
    ensures
        fill_ai(seats, n, i)[k] == seats[k],
        fill_ai(seats, n, i).len() == seats.len(),
    decreases i,
{
    if i > 0 && n > 0 {
        if seats[i - 1] is None {
            lemma_fill_keeps_taken(seats.update(i - 1, Some(ai_seat(i - 1))), n - 1, i - 1, k);
        } else {
            lemma_fill_keeps_taken(seats, n, i - 1, k);
        }
    }
}

/// A human whose seat an AI took over gets it back on reconnecting: the
/// seat is played by its human again, connected, in a new connection
/// generation; no other seat changes.
pub proof fn lemma_reconnect_restores_human(o: RoomState, i: int)
    requires
        room_wf(o),
        0 <= i < 4,
        o.seats[i] matches Some(p) && p.controller == SeatController::AiTakeover,
    ensures
        connect_state(o, i).seats[i] matches Some(p) && p.controller == SeatController::Human && p.connected,
        connect_state(o, i).generations[i] == next_generation(o.generations[i]),
        forall|j: int| 0 <= j < 4 && j != i ==> connect_state(o, i).seats[j] == o.seats[j],
        room_wf(connect_state(o, i)),
{
}

} // verus!
