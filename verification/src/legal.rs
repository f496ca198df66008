use vstd::prelude::*;
use crate::calls::{CallOption, CallType, ResponseAction};
use crate::declaration::hand_with_drawn;
use crate::kans::copy_tiles;
use crate::messages::ActionRequest;
use crate::player::PlayerId;
use crate::tile::Tile;

verus! {

/// What the player to move may do.
#[derive(Debug, Clone, Copy)]
pub enum TurnAction {
    Discard(Tile),
    RiichiDiscard(Tile),
    Tsumo,
    Ankan(Tile),
    Kakan(usize, Tile),
    KyuushuKyuuhai,
}

/// An action a player may submit.
#[derive(Debug, Clone, Copy)]
pub enum LegalAction {
    Turn(TurnAction),
    Response(ResponseAction),
}

/// The phase of the table as the action rules see it: a player to move,
/// a discard (or an added kan) open to answers, or neither.
#[derive(Debug, Clone, Copy)]
pub enum TablePhase {
    Action { player: PlayerId },
    Response { discarder: PlayerId },
    Other,
}

/// What the player to move holds and may do, as the game worked it out:
/// the concealed tiles, the drawn tile, whether riichi is on, and which of
/// riichi, tsumo, the kans and the nine-terminal abort are open.
#[derive(Debug, Clone)]
pub struct TurnOptions {
    pub hand: Vec<Tile>,
    pub drawn_tile: Option<Tile>,
    pub is_riichi: bool,
    pub can_riichi: bool,
    pub can_tsumo: bool,
    pub ankan: Vec<Tile>,
    pub kakan: Vec<(usize, Tile)>,
    pub can_kyuushu: bool,
}

/// Why an action is refused.
#[derive(Debug, Clone, Copy, PartialEq, Eq, Structural)]
pub enum ActionError {
    NotYourTurn,
    MustDiscardDrawnTile,
    TileNotInHand(Tile),
    RiichiNotAllowed,
    TsumoNotAllowed,
    AnkanNotAllowed,
    KakanNotAllowed,
    KyuushuNotAllowed,
    NotResponsePhase,
    OwnDiscard,
    ResponseNotOffered,
}

/// The answer that takes up an offered call.
pub open spec fn call_response(c: CallType) -> ResponseAction {
    match c {
        CallType::Ron => ResponseAction::Ron,
        CallType::Minkan { hand_tiles } => ResponseAction::Minkan { hand_tiles },
        CallType::Pon { hand_tiles } => ResponseAction::Pon { hand_tiles },
        CallType::Chi { hand_tiles } => ResponseAction::Chi { hand_tiles },
    }
}

pub open spec fn discard_of(t: Tile) -> LegalAction {
    LegalAction::Turn(TurnAction::Discard(t))
}

pub open spec fn riichi_discard_of(t: Tile) -> LegalAction {
    LegalAction::Turn(TurnAction::RiichiDiscard(t))
}

pub open spec fn ankan_of(t: Tile) -> LegalAction {
    LegalAction::Turn(TurnAction::Ankan(t))
}

pub open spec fn kakan_of(k: (usize, Tile)) -> LegalAction {
    LegalAction::Turn(TurnAction::Kakan(k.0, k.1))
}

pub open spec fn answer_of(o: CallOption) -> LegalAction {
    LegalAction::Response(call_response(o.call_type))
}

pub open spec fn one_if(cond: bool, a: LegalAction) -> Seq<LegalAction> {
    if cond {
        seq![a]
    } else {
        seq![]
    }
}

/// The moves of the player to move, in this order: every discard (hand
/// then drawn tile), every riichi discard when riichi is open, tsumo, the
/// closed kans, the added kans, and the nine-terminal abort.
pub open spec fn turn_actions(t: TurnOptions) -> Seq<LegalAction> {
    let tiles = hand_with_drawn(t.hand@, t.drawn_tile);
    tiles.map_values(|x: Tile| discard_of(x)) + (if t.can_riichi {
        tiles.map_values(|x: Tile| riichi_discard_of(x))
    } else {
        seq![]
    }) + one_if(t.can_tsumo, LegalAction::Turn(TurnAction::Tsumo)) + t.ankan@.map_values(
        |x: Tile| ankan_of(x),
    ) + t.kakan@.map_values(|k: (usize, Tile)| kakan_of(k)) + one_if(
        t.can_kyuushu,
        LegalAction::Turn(TurnAction::KyuushuKyuuhai),
    )
}

/// The answers open to `player`: each call offered to it, in order, then
/// passing.
pub open spec fn response_actions(options: Seq<CallOption>, player: PlayerId) -> Seq<LegalAction> {
    options.filter(|o: CallOption| o.player == player).map_values(|o: CallOption| answer_of(o)) + seq![
        LegalAction::Response(ResponseAction::Pass),
    ]
}

pub open spec fn legal_actions_spec(
    phase: TablePhase,
    player: PlayerId,
    turn: TurnOptions,
    options: Seq<CallOption>,
) -> Seq<LegalAction> {
    match phase {
        TablePhase::Action { player: p } => if p == player {
            turn_actions(turn)
        } else {
            seq![]
        },
        TablePhase::Response { .. } => response_actions(options, player),
        TablePhase::Other => seq![],
    }
}

/// The tile is the drawn tile or one in hand.
pub open spec fn holds(turn: TurnOptions, t: Tile) -> bool {
    turn.drawn_tile == Some(t) || turn.hand@.contains(t)
}

/// An offered call that `answer` takes up.
pub open spec fn offered(options: Seq<CallOption>, player: PlayerId, answer: ResponseAction) -> bool {
    exists|i: int|
        0 <= i < options.len() && (#[trigger] options[i]).player == player && call_response(
            options[i].call_type,
        ) == answer
}

pub open spec fn validate_turn_spec(turn: TurnOptions, action: TurnAction) -> Result<(), ActionError> {
    match action {
        TurnAction::Discard(t) => if turn.is_riichi && turn.drawn_tile != Some(t) {
            Err(ActionError::MustDiscardDrawnTile)
        } else if !holds(turn, t) {
            Err(ActionError::TileNotInHand(t))
        } else {
            Ok(())
        },
        TurnAction::RiichiDiscard(t) => if !turn.can_riichi || !holds(turn, t) {
            Err(ActionError::RiichiNotAllowed)
        } else {
            Ok(())
        },
        TurnAction::Tsumo => if !turn.can_tsumo {
            Err(ActionError::TsumoNotAllowed)
        } else {
            Ok(())
        },
        TurnAction::Ankan(t) => if !(exists|i: int|
            0 <= i < turn.ankan@.len() && (#[trigger] turn.ankan@[i]).spec_tile_type()
                == t.spec_tile_type()) {
            Err(ActionError::AnkanNotAllowed)
        } else {
            Ok(())
        },
        TurnAction::Kakan(i, t) => if !turn.kakan@.contains((i, t)) {
            Err(ActionError::KakanNotAllowed)
        } else {
            Ok(())
        },
        TurnAction::KyuushuKyuuhai => if !turn.can_kyuushu {
            Err(ActionError::KyuushuNotAllowed)
        } else {
            Ok(())
        },
    }
}

/// Whether an action still applies: a turn action only to the player to
/// move and as `validate_turn_spec` says; an answer only in a response
/// phase, not by the discarder, and (but for passing) only one offered.
pub open spec fn validate_spec(
    phase: TablePhase,
    player: PlayerId,
    turn: TurnOptions,
    options: Seq<CallOption>,
    action: LegalAction,
) -> Result<(), ActionError> {
    match action {
        LegalAction::Turn(t) => if phase matches TablePhase::Action { player: p } && p == player {
            validate_turn_spec(turn, t)
        } else {
            Err(ActionError::NotYourTurn)
        },
        LegalAction::Response(r) => match phase {
            TablePhase::Response { discarder } => if player == discarder {
                Err(ActionError::OwnDiscard)
            } else if r is Pass {
                Ok(())
            } else if offered(options, player, r) {
                Ok(())
            } else {
                Err(ActionError::ResponseNotOffered)
            },
            _ => Err(ActionError::NotResponsePhase),
        },
    }
}

fn push_tiles(actions: &mut Vec<LegalAction>, tiles: &Vec<Tile>, riichi: bool)
    ensures
        final(actions)@ == old(actions)@ + if riichi {
            tiles@.map_values(|x: Tile| riichi_discard_of(x))
        } else {
            tiles@.map_values(|x: Tile| discard_of(x))
        },
{
    let ghost start = actions@;
    let mut i: usize = 0;
    while i < tiles.len()
        invariant
            i <= tiles@.len(),
            actions@ == start + if riichi {
                tiles@.take(i as int).map_values(|x: Tile| riichi_discard_of(x))
            } else {
                tiles@.take(i as int).map_values(|x: Tile| discard_of(x))
            },
        decreases tiles@.len() - i,
    {
        let t = tiles[i];
        if riichi {
            actions.push(LegalAction::Turn(TurnAction::RiichiDiscard(t)));
        } else {
            actions.push(LegalAction::Turn(TurnAction::Discard(t)));
        }
        assert(tiles@.take(i + 1) =~= tiles@.take(i as int).push(t));
        i += 1;
    }
    assert(tiles@.take(tiles@.len() as int) =~= tiles@);
}

fn turn_legal_actions(turn: &TurnOptions) -> (actions: Vec<LegalAction>)
    ensures
        actions@ == turn_actions(*turn),
{
    let mut tiles: Vec<Tile> = turn.hand.clone();
    if let Some(t) = turn.drawn_tile {
        tiles.push(t);
    }
    assert(tiles@ == hand_with_drawn(turn.hand@, turn.drawn_tile));
    let mut actions: Vec<LegalAction> = Vec::new();
    push_tiles(&mut actions, &tiles, false);
    if turn.can_riichi {
        push_tiles(&mut actions, &tiles, true);
    }
    if turn.can_tsumo {
        actions.push(LegalAction::Turn(TurnAction::Tsumo));
    }
    let ghost before_kans = actions@;
    let mut i: usize = 0;
    while i < turn.ankan.len()
        invariant
            i <= turn.ankan@.len(),
            actions@ == before_kans + turn.ankan@.take(i as int).map_values(|x: Tile| ankan_of(x)),
        decreases turn.ankan@.len() - i,
    {
        actions.push(LegalAction::Turn(TurnAction::Ankan(turn.ankan[i])));
        assert(turn.ankan@.take(i + 1) =~= turn.ankan@.take(i as int).push(turn.ankan@[i as int]));
        i += 1;
    }
    assert(turn.ankan@.take(turn.ankan@.len() as int) =~= turn.ankan@);
    let ghost before_added = actions@;
    let mut j: usize = 0;
    while j < turn.kakan.len()
        invariant
            j <= turn.kakan@.len(),
            actions@ == before_added + turn.kakan@.take(j as int).map_values(|k: (usize, Tile)| kakan_of(k)),
        decreases turn.kakan@.len() - j,
    {
        let (index, tile) = turn.kakan[j];
        actions.push(LegalAction::Turn(TurnAction::Kakan(index, tile)));
        assert(turn.kakan@.take(j + 1) =~= turn.kakan@.take(j as int).push(turn.kakan@[j as int]));
        j += 1;
    }
    assert(turn.kakan@.take(turn.kakan@.len() as int) =~= turn.kakan@);
    if turn.can_kyuushu {
        actions.push(LegalAction::Turn(TurnAction::KyuushuKyuuhai));
    }
    actions
}

fn answer_for(call_type: &CallType) -> (r: ResponseAction)
    ensures
        r == call_response(*call_type),
{
    match call_type {
        CallType::Ron => ResponseAction::Ron,
        CallType::Minkan { hand_tiles } => ResponseAction::Minkan { hand_tiles: *hand_tiles },
        CallType::Pon { hand_tiles } => ResponseAction::Pon { hand_tiles: *hand_tiles },
        CallType::Chi { hand_tiles } => ResponseAction::Chi { hand_tiles: *hand_tiles },
    }
}

fn response_legal_actions(options: &[CallOption], player: PlayerId) -> (actions: Vec<LegalAction>)
    ensures
        actions@ == response_actions(options@, player),
{
    let ghost pred = |o: CallOption| o.player == player;
    let ghost f = |o: CallOption| answer_of(o);
    let mut actions: Vec<LegalAction> = Vec::new();
    let mut i: usize = 0;
    while i < options.len()
        invariant
            i <= options@.len(),
            pred == (|o: CallOption| o.player == player),
            f == (|o: CallOption| answer_of(o)),
            actions@ == options@.take(i as int).filter(pred).map_values(f),
        decreases options@.len() - i,
    {
        let o = options[i];
        proof {
            reveal(Seq::filter);
            assert(options@.take(i + 1).drop_last() =~= options@.take(i as int));
            assert(options@.take(i + 1).last() == o);
        }
        if o.player.0 == player.0 {
            let answer = answer_for(&o.call_type);
            actions.push(LegalAction::Response(answer));
            assert(options@.take(i + 1).filter(pred) == options@.take(i as int).filter(pred).push(o));
            assert(options@.take(i + 1).filter(pred).map_values(f) =~= options@.take(i as int).filter(
                pred,
            ).map_values(f).push(f(o)));
        } else {
            assert(options@.take(i + 1).filter(pred) == options@.take(i as int).filter(pred));
        }
        i += 1;
    }
    assert(options@.take(options@.len() as int) =~= options@);
    actions.push(LegalAction::Response(ResponseAction::Pass));
    actions
}

/// The actions `player` may try now (see `legal_actions_spec`); they are
/// checked again with `validate_action` when submitted.
pub fn legal_actions(phase: TablePhase, player: PlayerId, turn: &TurnOptions, options: &[CallOption]) -> (actions: Vec<LegalAction>)
    ensures
        actions@ == legal_actions_spec(phase, player, *turn, options@),
{
    match phase {
        TablePhase::Action { player: p } => {
            if p.0 == player.0 {
                turn_legal_actions(turn)
            } else {
                Vec::new()
            }
        },
        TablePhase::Response { .. } => response_legal_actions(options, player),
        TablePhase::Other => Vec::new(),
    }
}

fn hand_has(hand: &Vec<Tile>, t: Tile) -> (b: bool)
    ensures
        b == hand@.contains(t),
{
    let mut i: usize = 0;
    while i < hand.len()
        invariant
            i <= hand@.len(),
            forall|j: int| 0 <= j < i ==> hand@[j] != t,
        decreases hand@.len() - i,
    {
        if hand[i] == t {
            return true;
        }
        i += 1;
    }
    false
}

fn tiles_equal<const N: usize>(a: &[Tile; N], b: &[Tile; N]) -> (r: bool)
    ensures
        r == (*a == *b),
{
    let mut i: usize = 0;
    while i < N
        invariant
            i <= N,
            a@.len() == N,
            b@.len() == N,
            forall|j: int| 0 <= j < i ==> a[j] == b[j],
        decreases N - i,
    {
        if a[i] != b[i] {
            return false;
        }
        i += 1;
    }
    assert(*a =~= *b);
    true
}

fn takes_up(call_type: &CallType, answer: &ResponseAction) -> (b: bool)
    ensures
        b == (call_response(*call_type) == *answer),
{
    match (call_type, answer) {
        (CallType::Ron, ResponseAction::Ron) => true,
        (CallType::Minkan { hand_tiles: expected }, ResponseAction::Minkan { hand_tiles }) => tiles_equal(
            expected,
            hand_tiles,
        ),
        (CallType::Pon { hand_tiles: expected }, ResponseAction::Pon { hand_tiles }) => tiles_equal(
            expected,
            hand_tiles,
        ),
        (CallType::Chi { hand_tiles: expected }, ResponseAction::Chi { hand_tiles }) => tiles_equal(
            expected,
            hand_tiles,
        ),
        _ => false,
    }
}

#[verifier::loop_isolation(false)]
fn validate_turn(turn: &TurnOptions, action: &TurnAction) -> (r: Result<(), ActionError>)
    ensures
        r == validate_turn_spec(*turn, *action),
{
    match action {
        TurnAction::Discard(t) => {
            let is_drawn = match turn.drawn_tile {
                Some(d) => d == *t,
                None => false,
            };
            if turn.is_riichi && !is_drawn {
                return Err(ActionError::MustDiscardDrawnTile);
            }
            if !is_drawn && !hand_has(&turn.hand, *t) {
                return Err(ActionError::TileNotInHand(*t));
            }
            Ok(())
        },
        TurnAction::RiichiDiscard(t) => {
            let is_drawn = match turn.drawn_tile {
                Some(d) => d == *t,
                None => false,
            };
            if !turn.can_riichi || (!is_drawn && !hand_has(&turn.hand, *t)) {
                return Err(ActionError::RiichiNotAllowed);
            }
            Ok(())
        },
        TurnAction::Tsumo => {
            if !turn.can_tsumo {
                return Err(ActionError::TsumoNotAllowed);
            }
            Ok(())
        },
        TurnAction::Ankan(t) => {
            let kind = t.tile_type();
            let mut i: usize = 0;
            while i < turn.ankan.len()
                invariant
                    i <= turn.ankan@.len(),
                    kind == t.spec_tile_type(),
                    forall|j: int| 0 <= j < i ==> (#[trigger] turn.ankan@[j]).spec_tile_type() != kind,
                decreases turn.ankan@.len() - i,
            {
                if turn.ankan[i].tile_type().0 == kind.0 {
                    assert(turn.ankan@[i as int].spec_tile_type() == t.spec_tile_type());
                    return Ok(());
                }
                i += 1;
            }
            Err(ActionError::AnkanNotAllowed)
        },
        TurnAction::Kakan(index, t) => {
            let mut i: usize = 0;
            while i < turn.kakan.len()
                invariant
                    i <= turn.kakan@.len(),
                    forall|j: int| 0 <= j < i ==> turn.kakan@[j] != (*index, *t),
                decreases turn.kakan@.len() - i,
            {
                let (k, tile) = turn.kakan[i];
                if k == *index && tile == *t {
                    assert(turn.kakan@[i as int] == (*index, *t));
                    assert(turn.kakan@.contains((*index, *t)));
                    return Ok(());
                }
                i += 1;
            }
            Err(ActionError::KakanNotAllowed)
        },
        TurnAction::KyuushuKyuuhai => {
            if !turn.can_kyuushu {
                return Err(ActionError::KyuushuNotAllowed);
            }
            Ok(())
        },
    }
}

/// Checks that an action still applies to the table now (see
/// `validate_spec`).
#[verifier::loop_isolation(false)]
pub fn validate_action(
    phase: TablePhase,
    player: PlayerId,
    turn: &TurnOptions,
    options: &[CallOption],
    action: &LegalAction,
) -> (r: Result<(), ActionError>)
    ensures
        r == validate_spec(phase, player, *turn, options@, *action),
{
    match action {
        LegalAction::Turn(t) => {
            let to_move = match phase {
                TablePhase::Action { player: p } => p.0 == player.0,
                _ => false,
            };
            if !to_move {
                return Err(ActionError::NotYourTurn);
            }
            validate_turn(turn, t)
        },
        LegalAction::Response(answer) => {
            let discarder = match phase {
                TablePhase::Response { discarder } => discarder,
                _ => {
                    return Err(ActionError::NotResponsePhase);
                },
            };
            if player.0 == discarder.0 {
                return Err(ActionError::OwnDiscard);
            }
            if let ResponseAction::Pass = answer {
                return Ok(());
            }
            let mut i: usize = 0;
            while i < options.len()
                invariant
                    i <= options@.len(),
                    forall|j: int|
                        0 <= j < i ==> !((#[trigger] options@[j]).player == player && call_response(
                            options@[j].call_type,
                        ) == *answer),
                decreases options@.len() - i,
            {
                let o = options[i];
                if o.player.0 == player.0 && takes_up(&o.call_type, answer) {
                    assert(options@[i as int].player == player);
                    assert(offered(options@, player, *answer));
                    return Ok(());
                }
                i += 1;
            }
            Err(ActionError::ResponseNotOffered)
        },
    }
}

/// A discard, during riichi, of a tile other than the drawn one.
pub open spec fn riichi_hand_discard(turn: TurnOptions, a: LegalAction) -> bool {
    turn.is_riichi && match a {
        LegalAction::Turn(TurnAction::Discard(t)) => turn.drawn_tile != Some(t),
        _ => false,
    }
}

/// Every action offered to a player passes validation, with one gap the
/// offer list leaves to validation: during riichi it still lists the
/// discards of hand tiles, which only the drawn tile may be. (The
/// discarder, who is offered nothing but passing, is left out.)
pub proof fn lemma_offered_actions_validate(
    phase: TablePhase,
    player: PlayerId,
    turn: TurnOptions,
    options: Seq<CallOption>,
)
    requires
        phase matches TablePhase::Response { discarder } ==> discarder != player,
    ensures
        forall|k: int|
            0 <= k < legal_actions_spec(phase, player, turn, options).len() ==> validate_spec(
                phase,
                player,
                turn,
                options,
                #[trigger] legal_actions_spec(phase, player, turn, options)[k],
            ) is Ok || riichi_hand_discard(turn, legal_actions_spec(phase, player, turn, options)[k]),
{
    let all = legal_actions_spec(phase, player, turn, options);
    match phase {
        TablePhase::Action { player: p } => {
            if p == player {
                let tiles = hand_with_drawn(turn.hand@, turn.drawn_tile);
                let a = tiles.map_values(|x: Tile| discard_of(x));
                let b = if turn.can_riichi {
                    tiles.map_values(|x: Tile| riichi_discard_of(x))
                } else {
                    seq![]
                };
                let c = one_if(turn.can_tsumo, LegalAction::Turn(TurnAction::Tsumo));
                let d = turn.ankan@.map_values(|x: Tile| ankan_of(x));
                let e = turn.kakan@.map_values(|k: (usize, Tile)| kakan_of(k));
                let f = one_if(turn.can_kyuushu, LegalAction::Turn(TurnAction::KyuushuKyuuhai));
                assert(all == a + b + c + d + e + f);
                assert forall|k: int| 0 <= k < all.len() implies validate_spec(phase, player, turn, options, #[trigger] all[k])
                    is Ok || riichi_hand_discard(turn, all[k]) by {
                    let la = a.len() as int;
                    let lb = la + b.len();
                    let lc = lb + c.len();
                    let ld = lc + d.len();
                    let le = ld + e.len();
                    if k < la {
                        assert(all[k] == a[k]);
                        if k < turn.hand@.len() {
                            assert(tiles[k] == turn.hand@[k]);
                            assert(turn.hand@.contains(tiles[k]));
                        }
                    } else if k < lb {
                        assert(all[k] == b[k - la]);
                        if k - la < turn.hand@.len() {
                            assert(tiles[k - la] == turn.hand@[k - la]);
                            assert(turn.hand@.contains(tiles[k - la]));
                        }
                    } else if k < lc {
                        assert(all[k] == c[k - lb]);
                    } else if k < ld {
                        assert(all[k] == d[k - lc]);
                        assert(turn.ankan@[k - lc].spec_tile_type() == turn.ankan@[k - lc].spec_tile_type());
                    } else if k < le {
                        assert(all[k] == e[k - ld]);
                        assert(turn.kakan@.contains(turn.kakan@[k - ld]));
                    } else {
                        assert(all[k] == f[k - le]);
                    }
                }
            }
        },
        TablePhase::Response { discarder } => {
            let pred = |o: CallOption| o.player == player;
            let picked = options.filter(pred);
            let answers = picked.map_values(|o: CallOption| answer_of(o));
            assert(all == answers + seq![LegalAction::Response(ResponseAction::Pass)]);
            assert forall|k: int| 0 <= k < all.len() implies validate_spec(phase, player, turn, options, #[trigger] all[k])
                is Ok by {
                if k < answers.len() {
                    assert(all[k] == answers[k]);
                    let o = picked[k];
                    options.lemma_filter_pred(pred, k);
                    assert(picked.contains(o));
                    assert(o.player == player);
                    options.lemma_filter_contains_rev(pred, o);
                    let j = choose|j: int| 0 <= j < options.len() && options[j] == o;
                    assert(options[j].player == player);
                    assert(offered(options, player, call_response(o.call_type)));
                } else {
                    assert(all[k] == LegalAction::Response(ResponseAction::Pass));
                }
            }
        },
        TablePhase::Other => {},
    }
}

/// The first offered discard that validates, among the first `n` offered
/// actions.
pub open spec fn first_valid_discard(
    actions: Seq<LegalAction>,
    phase: TablePhase,
    player: PlayerId,
    turn: TurnOptions,
    options: Seq<CallOption>,
    n: int,
) -> Option<Tile>
    decreases n,
{
    if n <= 0 {
        None
    } else {
        match first_valid_discard(actions, phase, player, turn, options, n - 1) {
            Some(t) => Some(t),
            None => match actions[n - 1] {
                LegalAction::Turn(TurnAction::Discard(t)) => if validate_spec(phase, player, turn, options, actions[n - 1]) is Ok {
                    Some(t)
                } else {
                    None
                },
                _ => None,
            },
        }
    }
}

/// The discard made for a player whose own action was refused: the first
/// offered discard that validates; none when no such discard exists (the
/// round is then ended).
pub fn safe_discard(phase: TablePhase, player: PlayerId, turn: &TurnOptions, options: &[CallOption]) -> (r: Option<Tile>)
    ensures
        ({
            let actions = legal_actions_spec(phase, player, *turn, options@);
            r == first_valid_discard(actions, phase, player, *turn, options@, actions.len() as int)
        }),
{
    let actions = legal_actions(phase, player, turn, options);
    let ghost all = actions@;
    let mut i: usize = 0;
    while i < actions.len()
        invariant
            i <= actions@.len(),
            actions@ == all,
            all == legal_actions_spec(phase, player, *turn, options@),
            first_valid_discard(all, phase, player, *turn, options@, i as int) is None,
        decreases actions@.len() - i,
    {
        let action = actions[i];
        if let LegalAction::Turn(TurnAction::Discard(t)) = action {
            if validate_action(phase, player, turn, options, &action).is_ok() {
                proof {
                    lemma_first_valid_discard_stays(all, phase, player, *turn, options@, i + 1, all.len() as int);
                }
                return Some(t);
            }
        }
        i += 1;
    }
    None
}

proof fn lemma_first_valid_discard_stays(
    actions: Seq<LegalAction>,
    phase: TablePhase,
    player: PlayerId,
    turn: TurnOptions,
    options: Seq<CallOption>,
    n: int,
    m: int,
)
    requires
        0 < n <= m,
        first_valid_discard(actions, phase, player, turn, options, n) is Some,
    ensures
        first_valid_discard(actions, phase, player, turn, options, m) == first_valid_discard(
            actions,
            phase,
            player,
            turn,
            options,
            n,
        ),
    decreases m - n,
{
    if n < m {
        lemma_first_valid_discard_stays(actions, phase, player, turn, options, n, m - 1);
    }
}

/// A player to move who is not in riichi and holds a tile always has a
/// safe discard: the first tile of the hand.
pub proof fn lemma_safe_discard_outside_riichi(player: PlayerId, turn: TurnOptions, options: Seq<CallOption>)
    requires
        !turn.is_riichi,
        turn.hand@.len() > 0,
    ensures
        ({
            let phase = TablePhase::Action { player };
            let actions = legal_actions_spec(phase, player, turn, options);
            first_valid_discard(actions, phase, player, turn, options, actions.len() as int) == Some(turn.hand@[0])
        }),
{
    let phase = TablePhase::Action { player };
    let actions = legal_actions_spec(phase, player, turn, options);
    let tiles = hand_with_drawn(turn.hand@, turn.drawn_tile);
    assert(tiles[0] == turn.hand@[0]);
    assert(actions[0] == discard_of(turn.hand@[0]));
    assert(turn.hand@.contains(turn.hand@[0]));
    assert(validate_spec(phase, player, turn, options, actions[0]) is Ok);
    assert(first_valid_discard(actions, phase, player, turn, options, 0) is None);
    assert(first_valid_discard(actions, phase, player, turn, options, 1) == Some(turn.hand@[0]));
    lemma_first_valid_discard_stays(actions, phase, player, turn, options, 1, actions.len() as int);
}

/// The discards prompted to the player to move: only the drawn tile
/// during riichi, else every tile of the hand and the drawn tile.
pub open spec fn prompted_discards(turn: TurnOptions) -> Seq<Tile> {
    if turn.is_riichi {
        match turn.drawn_tile {
            Some(d) => seq![d],
            None => seq![],
        }
    } else {
        hand_with_drawn(turn.hand@, turn.drawn_tile)
    }
}

/// The prompt sent to the player to move: what it may do, with the
/// riichi discards as worked out for it.
pub fn action_prompt(player: PlayerId, turn: &TurnOptions, riichi_options: Vec<Tile>) -> (r: ActionRequest)
    ensures
        r.player == player,
        r.can_tsumo == turn.can_tsumo,
        r.can_riichi == turn.can_riichi,
        r.riichi_options@ == riichi_options@,
        r.discard_options@ == prompted_discards(*turn),
        r.ankan_options@ == turn.ankan@,
        r.kakan_options@ == turn.kakan@,
        r.can_kyuushu == turn.can_kyuushu,
{
    let discard_options = if turn.is_riichi {
        let mut v: Vec<Tile> = Vec::new();
        if let Some(d) = turn.drawn_tile {
            v.push(d);
        }
        assert(v@ =~= prompted_discards(*turn));
        v
    } else {
        let mut v = copy_tiles(turn.hand.as_slice());
        if let Some(d) = turn.drawn_tile {
            v.push(d);
        }
        v
    };
    let mut kakan_options: Vec<(usize, Tile)> = Vec::new();
    let mut i: usize = 0;
    while i < turn.kakan.len()
        invariant
            i <= turn.kakan@.len(),
            kakan_options@ == turn.kakan@.take(i as int),
        decreases turn.kakan@.len() - i,
    {
        kakan_options.push(turn.kakan[i]);
        assert(turn.kakan@.take(i + 1) =~= turn.kakan@.take(i as int).push(turn.kakan@[i as int]));
        i += 1;
    }
    assert(turn.kakan@.take(turn.kakan@.len() as int) =~= turn.kakan@);
    ActionRequest {
        player,
        can_tsumo: turn.can_tsumo,
        can_riichi: turn.can_riichi,
        riichi_options,
        discard_options,
        ankan_options: copy_tiles(turn.ankan.as_slice()),
        kakan_options,
        can_kyuushu: turn.can_kyuushu,
    }
}

/// Every discard the prompt offers passes validation.
pub proof fn lemma_prompted_discards_validate(player: PlayerId, turn: TurnOptions, options: Seq<CallOption>)
    ensures
        forall|k: int|
            0 <= k < prompted_discards(turn).len() ==> validate_spec(
                TablePhase::Action { player },
                player,
                turn,
                options,
                LegalAction::Turn(TurnAction::Discard(#[trigger] prompted_discards(turn)[k])),
            ) is Ok,
{
    let p = prompted_discards(turn);
    assert forall|k: int| 0 <= k < p.len() implies validate_spec(
        TablePhase::Action { player },
        player,
        turn,
        options,
        LegalAction::Turn(TurnAction::Discard(#[trigger] p[k])),
    ) is Ok by {
        if !turn.is_riichi && k < turn.hand@.len() {
            assert(p[k] == turn.hand@[k]);
            assert(turn.hand@.contains(p[k]));
        }
    }
}

} // verus!
