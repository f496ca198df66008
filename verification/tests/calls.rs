use riichi::calls::{
    collect_answers, get_call_options, detect_calls, tier_players, tier_taken, CallOption, CallType, CallWindow, SeatHand, call_priority_key, resolve_call_answers, should_replace_call, CallAnswer, ResponseAction, ResponseOutcome,
};
use riichi::player::PlayerId;
use riichi::tile::Tile;

#[test]
fn game_pon_beats_chi_and_nearer_call_wins_same_priority() {
    let chi = ResponseAction::Chi { hand_tiles: [Tile::from_raw(0), Tile::from_raw(4)] };
    let pon = ResponseAction::Pon { hand_tiles: [Tile::from_raw(8), Tile::from_raw(12)] };
    let discarder = PlayerId(0);
    assert!(should_replace_call(Some((PlayerId(1), chi)), PlayerId(2), &pon, discarder));

    let farther_pon = ResponseAction::Pon { hand_tiles: [Tile::from_raw(16), Tile::from_raw(20)] };
    assert!(!should_replace_call(Some((PlayerId(1), pon)), PlayerId(2), &farther_pon, discarder));
    assert_eq!(call_priority_key(PlayerId(1), &chi, discarder).0, 1);
}

#[test]
fn open_kan_outranks_pon_and_any_call_beats_none() {
    let pon = ResponseAction::Pon { hand_tiles: [Tile::from_raw(8), Tile::from_raw(9)] };
    let kan = ResponseAction::Minkan { hand_tiles: [Tile::from_raw(8), Tile::from_raw(9), Tile::from_raw(10)] };
    assert!(should_replace_call(Some((PlayerId(1), pon)), PlayerId(3), &kan, PlayerId(0)));
    assert!(should_replace_call(None, PlayerId(3), &ResponseAction::Pass, PlayerId(0)));
    assert_eq!(call_priority_key(PlayerId(3), &kan, PlayerId(0)), (3, 1));
    assert_eq!(call_priority_key(PlayerId(0), &pon, PlayerId(3)), (2, 3));
}

fn answer(player: usize, action: ResponseAction, may_ron: bool) -> CallAnswer {
    CallAnswer { player: PlayerId(player), action, may_ron }
}

fn winners(outcome: &ResponseOutcome) -> Vec<usize> {
    match outcome {
        ResponseOutcome::Ron { winners } => winners.iter().map(|p| p.0).collect(),
        _ => panic!("expected a ron"),
    }
}

#[test]
fn ron_winners_come_in_turn_order_after_the_discarder() {
    let pon = ResponseAction::Pon { hand_tiles: [Tile::from_raw(8), Tile::from_raw(9)] };
    let answers = [
        answer(3, ResponseAction::Ron, true),
        answer(1, ResponseAction::Ron, true),
        answer(2, pon, false),
    ];
    assert_eq!(winners(&resolve_call_answers(PlayerId(0), &answers, 2)), vec![1, 3]);
    assert_eq!(winners(&resolve_call_answers(PlayerId(0), &answers, 1)), vec![1]);

    let later = [answer(1, ResponseAction::Ron, true), answer(3, ResponseAction::Ron, true)];
    assert_eq!(winners(&resolve_call_answers(PlayerId(2), &later, 3)), vec![3, 1]);
    assert_eq!(winners(&resolve_call_answers(PlayerId(2), &later, 1)), vec![3]);
}

#[test]
fn ron_not_offered_is_ignored_and_the_best_call_is_made() {
    let chi = ResponseAction::Chi { hand_tiles: [Tile::from_raw(0), Tile::from_raw(4)] };
    let pon = ResponseAction::Pon { hand_tiles: [Tile::from_raw(8), Tile::from_raw(9)] };
    let answers = [
        answer(1, chi, false),
        answer(3, ResponseAction::Ron, false),
        answer(2, pon, false),
    ];
    match resolve_call_answers(PlayerId(0), &answers, 3) {
        ResponseOutcome::Call { player, action } => {
            assert_eq!(player.0, 2);
            assert!(matches!(action, ResponseAction::Pon { .. }));
        }
        _ => panic!("expected the pon"),
    }
}

#[test]
fn answers_without_ron_or_call_all_pass() {
    let answers = [answer(1, ResponseAction::Pass, true), answer(2, ResponseAction::Pass, false)];
    assert!(matches!(resolve_call_answers(PlayerId(0), &answers, 2), ResponseOutcome::AllPass));
    assert!(matches!(resolve_call_answers(PlayerId(0), &[], 2), ResponseOutcome::AllPass));
}

fn seat(raw: &[u8]) -> SeatHand {
    SeatHand { hand: raw.iter().map(|&r| Tile::from_raw(r)).collect(), meld_tiles: Vec::new(), is_furiten: false }
}

#[test]
fn winning_shape_does_not_hide_optional_pon() {
    let seats = [
        seat(&[]),
        seat(&[32, 33, 36, 40, 44, 48, 52, 56, 60, 64, 68, 72, 73]),
        seat(&[]),
        seat(&[]),
    ];
    let options = detect_calls(&seats, Tile::from_raw(34), PlayerId(0));
    assert!(options.iter().any(|option| matches!(option.call_type, CallType::Ron)));
    assert!(options.iter().any(|option| matches!(option.call_type, CallType::Pon { .. })));
}

#[test]
fn calls_come_ron_first_then_kan_pon_and_chi() {
    // Seat 1 (next after the discarder) holds 23m, seat 2 a pair of 1m,
    // seat 3 waits on 1m with a single one.
    let seats = [
        seat(&[]),
        seat(&[4, 8, 100, 101]),
        seat(&[2, 3, 120, 124]),
        seat(&[36, 40, 44, 48, 52, 56, 60, 64, 68, 108, 109, 110, 1]),
    ];
    let discard = Tile::from_raw(0);
    let options = detect_calls(&seats, discard, PlayerId(0));
    let kinds: Vec<(usize, &str)> = options
        .iter()
        .map(|o| {
            let name = match o.call_type {
                CallType::Ron => "ron",
                CallType::Minkan { .. } => "kan",
                CallType::Pon { .. } => "pon",
                CallType::Chi { .. } => "chi",
            };
            (o.player.0, name)
        })
        .collect();
    assert_eq!(kinds, vec![(3, "ron"), (2, "pon"), (1, "chi")]);
    match options[2].call_type {
        CallType::Chi { hand_tiles } => assert_eq!(hand_tiles, [Tile::from_raw(4), Tile::from_raw(8)]),
        _ => panic!("expected a chi"),
    }
}

#[test]
fn three_copies_offer_both_kan_and_pon_and_furiten_blocks_ron() {
    let mut waiting = seat(&[36, 40, 44, 48, 52, 56, 60, 64, 68, 108, 109, 4, 8]);
    let seats = [seat(&[]), seat(&[]), seat(&[1, 2, 3, 100]), waiting.clone()];
    let options = detect_calls(&seats, Tile::from_raw(0), PlayerId(1));
    assert_eq!(options.len(), 3);
    assert!(matches!(options[0].call_type, CallType::Ron) && options[0].player.0 == 3);

    waiting.is_furiten = true;
    let seats = [seat(&[]), seat(&[]), seat(&[1, 2, 3, 100]), waiting];
    let options = detect_calls(&seats, Tile::from_raw(0), PlayerId(1));
    assert_eq!(options.len(), 2);
    match options[0].call_type {
        CallType::Minkan { hand_tiles } => {
            assert_eq!(options[0].player.0, 2);
            assert_eq!(hand_tiles, [Tile::from_raw(1), Tile::from_raw(2), Tile::from_raw(3)]);
        }
        _ => panic!("expected an open kan"),
    }
    match options[1].call_type {
        CallType::Pon { hand_tiles } => {
            assert_eq!(options[1].player.0, 2);
            assert_eq!(hand_tiles, [Tile::from_raw(1), Tile::from_raw(2)]);
        }
        _ => panic!("expected a pon"),
    }
}

#[test]
fn honour_discards_offer_no_chi_and_the_discarder_nothing() {
    let seats = [seat(&[110]), seat(&[108, 109, 112]), seat(&[]), seat(&[])];
    let options = detect_calls(&seats, Tile::from_raw(111), PlayerId(0));
    assert_eq!(options.len(), 1);
    assert!(matches!(options[0].call_type, CallType::Pon { .. }) && options[0].player.0 == 1);
}

#[test]
fn rons_are_offered_only_where_the_full_win_check_passes() {
    let seats = [
        seat(&[]),
        seat(&[4, 8, 100, 101]),
        seat(&[2, 3, 120, 124]),
        seat(&[36, 40, 44, 48, 52, 56, 60, 64, 68, 108, 109, 110, 1]),
    ];
    let window = CallWindow::Discard { tile: Tile::from_raw(0), discarder: PlayerId(0) };
    let with_yaku = get_call_options(window, &seats, [false, false, false, true]);
    assert_eq!(with_yaku.len(), 3);
    assert!(matches!(with_yaku[0].call_type, CallType::Ron) && with_yaku[0].player.0 == 3);
    let without_yaku = get_call_options(window, &seats, [true, true, true, false]);
    assert_eq!(without_yaku.len(), 2);
    assert!(matches!(without_yaku[0].call_type, CallType::Pon { .. }) && without_yaku[0].player.0 == 2);
    assert!(matches!(without_yaku[1].call_type, CallType::Chi { .. }) && without_yaku[1].player.0 == 1);
}

#[test]
fn an_added_kan_can_be_robbed_only_by_other_seats_that_may_win() {
    let seats = [seat(&[]), seat(&[]), seat(&[]), seat(&[])];
    let window = CallWindow::AddedKan { tile: Tile::from_raw(0), kakan_player: PlayerId(1) };
    let options = get_call_options(window, &seats, [false, true, true, true]);
    let players: Vec<usize> = options.iter().map(|o| o.player.0).collect();
    assert_eq!(players, vec![2, 3]);
    assert!(options.iter().all(|o| matches!(o.call_type, CallType::Ron)));
}

#[test]
fn answers_are_awaited_tier_by_tier() {
    let pon = [Tile::from_raw(8), Tile::from_raw(9)];
    let options = [
        CallOption { player: PlayerId(3), call_type: CallType::Ron },
        CallOption { player: PlayerId(2), call_type: CallType::Pon { hand_tiles: pon } },
        CallOption { player: PlayerId(1), call_type: CallType::Ron },
    ];
    let eligible = [PlayerId(1), PlayerId(2), PlayerId(3)];
    let rons: Vec<usize> = tier_players(&options, &eligible, 0).iter().map(|p| p.0).collect();
    assert_eq!(rons, vec![1, 3]);
    let pons: Vec<usize> = tier_players(&options, &eligible, 2).iter().map(|p| p.0).collect();
    assert_eq!(pons, vec![2]);
    assert!(tier_players(&options, &eligible, 3).is_empty());

    let responses = [
        (PlayerId(2), ResponseAction::Pon { hand_tiles: pon }),
        (PlayerId(1), ResponseAction::Pass),
    ];
    let ron_tier = tier_players(&options, &eligible, 0);
    assert!(!tier_taken(&responses, &ron_tier, 0));
    assert!(tier_taken(&responses, &tier_players(&options, &eligible, 2), 2));

    let gathered = collect_answers(&eligible, &responses);
    assert_eq!(gathered.len(), 3);
    assert!(matches!(gathered[0], (PlayerId(1), ResponseAction::Pass)));
    assert!(matches!(gathered[1], (PlayerId(2), ResponseAction::Pon { .. })));
    assert!(matches!(gathered[2], (PlayerId(3), ResponseAction::Pass)));
}
