use riichi::calls::{CallOption, CallType};
use riichi::channel::{GamePhase, PlayerAction, StateUpdate};
use riichi::legal::TurnAction;
use riichi::messages::{ClientEnvelope, ClientMessage, GamePhaseView, ServerMessage, TurnActionPayload, PROTOCOL_VERSION};
use riichi::player::PlayerId;
use riichi::protocol::{
    call_options_to_wire, client_message_to_action, state_update_to_wire, CommandError, CommandTracker,
    ServerSequencer,
};
use riichi::tile::{Tile, TileType};

#[test]
fn server_sequencer_assigns_monotonic_connection_sequence() {
    let mut sequencer = ServerSequencer::new();
    assert_eq!(sequencer.current_seq(), 0);

    let first = sequencer.envelope(ServerMessage::Error("first".into()));
    let second = sequencer.envelope(ServerMessage::Error("second".into()));

    assert_eq!(first.protocol_version, PROTOCOL_VERSION);
    assert_eq!(first.seq, 1);
    assert_eq!(second.seq, 2);
    assert_eq!(sequencer.current_seq(), 2);
}

#[test]
fn command_tracker_rejects_stale_and_duplicate_commands() {
    let mut tracker = CommandTracker::new();
    let command = ClientEnvelope {
        protocol_version: PROTOCOL_VERSION,
        command_id: 7,
        expected_seq: 3,
        body: ClientMessage::Ready,
    };
    assert_eq!(
        tracker.validate(&command, 2),
        Err(CommandError::StaleSequence {
            expected: 3,
            actual: 2
        })
    );
    assert_eq!(tracker.validate(&command, 3), Ok(()));
    assert_eq!(tracker.validate(&command, 3), Err(CommandError::Duplicate));
}

#[test]
fn accepted_command_stays_refused_at_any_sequence() {
    let mut tracker = CommandTracker::default();
    let mut command = ClientEnvelope {
        protocol_version: PROTOCOL_VERSION,
        command_id: 1,
        expected_seq: 0,
        body: ClientMessage::LeaveRoom,
    };
    assert_eq!(tracker.validate(&command, 0), Ok(()));
    command.expected_seq = 5;
    assert_eq!(tracker.validate(&command, 5), Err(CommandError::Duplicate));
    command.command_id = 2;
    assert_eq!(tracker.validate(&command, 5), Ok(()));
}

#[test]
fn sequencer_envelope_carries_the_body() {
    let mut sequencer = ServerSequencer::default();
    let e = sequencer.envelope(ServerMessage::GameOver { scores: [1, 2, 3, 4], ranking: [3, 2, 1, 0] });
    assert_eq!(e.seq, 1);
    match e.body {
        ServerMessage::GameOver { scores, ranking } => {
            assert_eq!(scores, [1, 2, 3, 4]);
            assert_eq!(ranking, [3, 2, 1, 0]);
        }
        _ => panic!("unexpected body"),
    }
}

fn update() -> StateUpdate {
    StateUpdate {
        phase: GamePhase::ActionPhase,
        current_player: PlayerId(0),
        pending_discard: None,
        drawn_tile: Some(Tile::from_raw(12)),
        hand_tiles: vec![Tile::from_raw(1)],
        hand_count: 1,
        hand_counts: [1; 4],
        points: [25000; 4],
        winds: [TileType(27); 4],
        is_riichi: [false; 4],
        discards: [Vec::new(), Vec::new(), Vec::new(), Vec::new()],
        melds_count: [0; 4],
        melds: [Vec::new(), Vec::new(), Vec::new(), Vec::new()],
        dora: Vec::new(),
        remaining_tiles: 100,
        round: 1,
        honba: 0,
        riichi_sticks: 0,
        tenpai_info: None,
    }
}

#[test]
fn wire_action_does_not_supply_player_identity() {
    let action = client_message_to_action(ClientMessage::TurnAction {
        action: TurnActionPayload::Discard(Tile::from_raw(7)),
    });
    assert!(matches!(
        action,
        Some(PlayerAction::TurnAction(TurnAction::Discard(tile))) if tile == Tile::from_raw(7)
    ));
    assert!(client_message_to_action(ClientMessage::Ready).is_none());
}

#[test]
fn state_view_only_exposes_recipient_hand_and_drawn_tile() {
    let ServerMessage::StateUpdate(view) = state_update_to_wire(&update(), PlayerId(0)) else {
        panic!("expected state update")
    };
    assert_eq!(view.players[0].hand.as_deref(), Some(&[Tile::from_raw(1)][..]));
    assert!(view.players[1].hand.is_none());
    assert_eq!(view.drawn_tile, Some(Tile::from_raw(12)));
}

#[test]
fn other_players_see_neither_the_hand_nor_the_drawn_tile() {
    let mut u = update();
    u.hand_counts = [13, 13, 14, 13];
    u.hand_count = 13;
    let ServerMessage::StateUpdate(view) = state_update_to_wire(&u, PlayerId(2)) else {
        panic!("expected state update")
    };
    assert!(view.players.iter().enumerate().all(|(i, p)| p.hand.is_some() == (i == 2)));
    assert_eq!(view.drawn_tile, None);
    assert_eq!(view.players[0].hand_count, 13);
    assert_eq!(view.players[2].hand_count, 13);
    assert!(matches!(view.phase, GamePhaseView::ActionPhase));
}

#[test]
fn call_view_only_exposes_recipient_options() {
    let options = vec![
        CallOption { player: PlayerId(0), call_type: CallType::Ron },
        CallOption { player: PlayerId(1), call_type: CallType::Ron },
    ];
    let ServerMessage::CallRequired(request) = call_options_to_wire(PlayerId(1), &options) else {
        panic!("expected call request")
    };
    assert_eq!(request.player, PlayerId(1));
    assert_eq!(request.options.len(), 1);
    assert_eq!(request.options[0].player, PlayerId(1));
}
