use riichi::calls::ResponseAction;
use riichi::calls::{CallOption, CallType};
use riichi::legal::{
    action_prompt, legal_actions, safe_discard, validate_action, ActionError, LegalAction, TablePhase, TurnAction,
    TurnOptions,
};
use riichi::player::PlayerId;
use riichi::tile::Tile;

fn t(raw: u8) -> Tile {
    Tile::from_raw(raw)
}

fn turn() -> TurnOptions {
    TurnOptions {
        hand: vec![t(0), t(4)],
        drawn_tile: Some(t(8)),
        is_riichi: false,
        can_riichi: false,
        can_tsumo: true,
        ankan: vec![t(12)],
        kakan: vec![(1, t(16))],
        can_kyuushu: false,
    }
}

#[test]
fn the_player_to_move_is_offered_discards_tsumo_and_kans_in_order() {
    let actions = legal_actions(TablePhase::Action { player: PlayerId(0) }, PlayerId(0), &turn(), &[]);
    assert_eq!(actions.len(), 6);
    assert!(matches!(actions[0], LegalAction::Turn(TurnAction::Discard(x)) if x == t(0)));
    assert!(matches!(actions[2], LegalAction::Turn(TurnAction::Discard(x)) if x == t(8)));
    assert!(matches!(actions[3], LegalAction::Turn(TurnAction::Tsumo)));
    assert!(matches!(actions[4], LegalAction::Turn(TurnAction::Ankan(x)) if x == t(12)));
    assert!(matches!(actions[5], LegalAction::Turn(TurnAction::Kakan(1, x)) if x == t(16)));
    assert!(legal_actions(TablePhase::Action { player: PlayerId(0) }, PlayerId(1), &turn(), &[]).is_empty());
    assert!(legal_actions(TablePhase::Other, PlayerId(0), &turn(), &[]).is_empty());

    let mut riichi = turn();
    riichi.can_riichi = true;
    riichi.can_kyuushu = true;
    let actions = legal_actions(TablePhase::Action { player: PlayerId(0) }, PlayerId(0), &riichi, &[]);
    assert_eq!(actions.len(), 10);
    assert!(matches!(actions[3], LegalAction::Turn(TurnAction::RiichiDiscard(x)) if x == t(0)));
    assert!(matches!(actions[9], LegalAction::Turn(TurnAction::KyuushuKyuuhai)));
}

#[test]
fn turn_actions_are_validated_against_the_hand_and_options() {
    let phase = TablePhase::Action { player: PlayerId(0) };
    let me = PlayerId(0);
    let check = |turn: &TurnOptions, action: TurnAction| validate_action(phase, me, turn, &[], &LegalAction::Turn(action));
    assert_eq!(check(&turn(), TurnAction::Discard(t(4))), Ok(()));
    assert_eq!(check(&turn(), TurnAction::Discard(t(20))), Err(ActionError::TileNotInHand(t(20))));
    assert_eq!(check(&turn(), TurnAction::RiichiDiscard(t(8))), Err(ActionError::RiichiNotAllowed));
    assert_eq!(check(&turn(), TurnAction::Tsumo), Ok(()));
    assert_eq!(check(&turn(), TurnAction::Ankan(t(13))), Ok(()));
    assert_eq!(check(&turn(), TurnAction::Ankan(t(16))), Err(ActionError::AnkanNotAllowed));
    assert_eq!(check(&turn(), TurnAction::Kakan(1, t(16))), Ok(()));
    assert_eq!(check(&turn(), TurnAction::Kakan(0, t(16))), Err(ActionError::KakanNotAllowed));
    assert_eq!(check(&turn(), TurnAction::KyuushuKyuuhai), Err(ActionError::KyuushuNotAllowed));

    let mut riichi = turn();
    riichi.is_riichi = true;
    assert_eq!(check(&riichi, TurnAction::Discard(t(4))), Err(ActionError::MustDiscardDrawnTile));
    assert_eq!(check(&riichi, TurnAction::Discard(t(8))), Ok(()));

    let other = validate_action(phase, PlayerId(1), &turn(), &[], &LegalAction::Turn(TurnAction::Tsumo));
    assert_eq!(other, Err(ActionError::NotYourTurn));
}

#[test]
fn answers_are_offered_and_validated_per_player() {
    let pon = [t(40), t(41)];
    let options = [
        CallOption { player: PlayerId(1), call_type: CallType::Ron },
        CallOption { player: PlayerId(2), call_type: CallType::Pon { hand_tiles: pon } },
    ];
    let phase = TablePhase::Response { discarder: PlayerId(0) };
    let actions = legal_actions(phase, PlayerId(2), &turn(), &options);
    assert_eq!(actions.len(), 2);
    assert!(matches!(actions[0], LegalAction::Response(ResponseAction::Pon { hand_tiles }) if hand_tiles == pon));
    assert!(matches!(actions[1], LegalAction::Response(ResponseAction::Pass)));

    let answer = |player: usize, r: ResponseAction| validate_action(phase, PlayerId(player), &turn(), &options, &LegalAction::Response(r));
    assert_eq!(answer(2, ResponseAction::Pon { hand_tiles: pon }), Ok(()));
    assert_eq!(answer(2, ResponseAction::Pon { hand_tiles: [t(40), t(42)] }), Err(ActionError::ResponseNotOffered));
    assert_eq!(answer(2, ResponseAction::Ron), Err(ActionError::ResponseNotOffered));
    assert_eq!(answer(1, ResponseAction::Ron), Ok(()));
    assert_eq!(answer(3, ResponseAction::Pass), Ok(()));
    assert_eq!(answer(0, ResponseAction::Pass), Err(ActionError::OwnDiscard));

    let turn_in_response = validate_action(phase, PlayerId(1), &turn(), &options, &LegalAction::Turn(TurnAction::Tsumo));
    assert_eq!(turn_in_response, Err(ActionError::NotYourTurn));
    let answer_in_turn = validate_action(
        TablePhase::Action { player: PlayerId(0) },
        PlayerId(1),
        &turn(),
        &options,
        &LegalAction::Response(ResponseAction::Pass),
    );
    assert_eq!(answer_in_turn, Err(ActionError::NotResponsePhase));
}

#[test]
fn a_refused_turn_falls_back_to_the_first_valid_discard() {
    let phase = TablePhase::Action { player: PlayerId(0) };
    assert_eq!(safe_discard(phase, PlayerId(0), &turn(), &[]), Some(t(0)));
    let mut riichi = turn();
    riichi.is_riichi = true;
    assert_eq!(safe_discard(phase, PlayerId(0), &riichi, &[]), Some(t(8)));
    assert_eq!(safe_discard(phase, PlayerId(1), &turn(), &[]), None);
    let mut empty = turn();
    empty.hand = Vec::new();
    empty.drawn_tile = None;
    assert_eq!(safe_discard(phase, PlayerId(0), &empty, &[]), None);
}

#[test]
fn the_action_prompt_offers_only_the_drawn_tile_during_riichi() {
    let prompt = action_prompt(PlayerId(0), &turn(), vec![t(4)]);
    assert_eq!(prompt.discard_options, vec![t(0), t(4), t(8)]);
    assert_eq!(prompt.riichi_options, vec![t(4)]);
    assert_eq!(prompt.ankan_options, vec![t(12)]);
    assert_eq!(prompt.kakan_options, vec![(1, t(16))]);
    assert!(prompt.can_tsumo && !prompt.can_riichi && !prompt.can_kyuushu);
    let mut riichi = turn();
    riichi.is_riichi = true;
    assert_eq!(action_prompt(PlayerId(0), &riichi, Vec::new()).discard_options, vec![t(8)]);
}
