use riichi::conditions::{check_suucha_riichi, is_double_riichi_active, is_ippatsu_active, make_win_situation, LogEvent};
use riichi::tile::TileType;
use riichi::player::PlayerId;

fn discard(player: PlayerId) -> LogEvent {
    LogEvent::Discard { player }
}

#[test]
fn ippatsu_expires_on_the_next_own_discard() {
    let player = PlayerId(0);
    let riichi = LogEvent::Riichi { player };
    assert!(is_ippatsu_active(&[discard(player), riichi], player));
    assert!(!is_ippatsu_active(&[discard(player), riichi, discard(player)], player));
}

#[test]
fn ippatsu_is_cancelled_by_any_call() {
    let player = PlayerId(0);
    let riichi = LogEvent::Riichi { player };
    let call = LogEvent::Call { player: PlayerId(1) };
    assert!(!is_ippatsu_active(&[discard(player), riichi, call], player));
}

#[test]
fn double_riichi_requires_the_first_discard_cycle() {
    let player = PlayerId(0);
    let riichi = LogEvent::Riichi { player };
    assert!(is_double_riichi_active(&[discard(player), riichi], player));
    assert!(!is_double_riichi_active(
        &[discard(player), discard(PlayerId(1)), discard(player), riichi],
        player
    ));
}

#[test]
fn ippatsu_when_riichi_precedes_its_declaration_tile() {
    let player = PlayerId(2);
    let riichi = LogEvent::Riichi { player };
    // Declared before the declaration tile: ippatsu lasts through that discard.
    assert!(!is_ippatsu_active(&[riichi], player));
    assert!(is_ippatsu_active(&[riichi, discard(player), discard(PlayerId(3))], player));
    assert!(!is_ippatsu_active(&[riichi, discard(player), discard(PlayerId(3)), discard(player)], player));
    // Only the last declaration counts, and others' riichi do not.
    assert!(!is_ippatsu_active(&[LogEvent::Riichi { player: PlayerId(1) }, discard(PlayerId(1))], player));
    assert!(is_ippatsu_active(&[LogEvent::Other, discard(player), riichi, LogEvent::Other], player));
}

#[test]
fn double_riichi_fails_after_a_call_or_without_riichi() {
    let player = PlayerId(0);
    let riichi = LogEvent::Riichi { player };
    assert!(!is_double_riichi_active(&[discard(player)], player));
    assert!(!is_double_riichi_active(
        &[LogEvent::Call { player: PlayerId(3) }, discard(player), riichi],
        player
    ));
    assert!(is_double_riichi_active(
        &[discard(PlayerId(1)), discard(PlayerId(2)), discard(PlayerId(3)), discard(player), riichi],
        player
    ));
}

#[test]
fn first_draw_wins_are_tenhou_for_the_dealer_and_chiihou_for_others() {
    let east = TileType(27);
    let south = TileType(28);
    let dealer = PlayerId(0);
    let s = make_win_situation(&[], dealer, dealer, true, false, false, false, false, east, east);
    assert!(s.is_tenhou && !s.is_chiihou);
    let s = make_win_situation(&[discard(dealer)], PlayerId(1), dealer, true, false, false, false, false, south, east);
    assert!(s.is_chiihou && !s.is_tenhou);
    let called = [discard(dealer), LogEvent::Call { player: PlayerId(2) }];
    let s = make_win_situation(&called, PlayerId(1), dealer, true, false, false, false, false, south, east);
    assert!(!s.is_chiihou);
    let s = make_win_situation(&[discard(dealer)], PlayerId(1), dealer, false, false, false, false, false, south, east);
    assert!(!s.is_chiihou && !s.is_tenhou);
}

#[test]
fn last_tile_wins_are_haitei_or_houtei_but_not_after_a_replacement_draw() {
    let east = TileType(27);
    let events = [discard(PlayerId(0)), discard(PlayerId(1))];
    let s = make_win_situation(&events, PlayerId(2), PlayerId(0), true, true, true, false, false, east, east);
    assert!(s.is_haitei && !s.is_houtei && s.is_riichi && !s.is_rinshan);
    let s = make_win_situation(&events, PlayerId(2), PlayerId(0), true, true, true, true, false, east, east);
    assert!(!s.is_haitei && !s.is_rinshan);
    let s = make_win_situation(&events, PlayerId(2), PlayerId(0), false, false, true, false, true, east, east);
    assert!(s.is_houtei && !s.is_haitei && s.is_chankan);
}

#[test]
fn four_riichi_declarations_abort_the_round() {
    let mut events: Vec<LogEvent> = Vec::new();
    for p in 0..3 {
        events.push(LogEvent::Riichi { player: PlayerId(p) });
        events.push(discard(PlayerId(p)));
    }
    assert!(!check_suucha_riichi(&events));
    events.push(LogEvent::Riichi { player: PlayerId(3) });
    assert!(check_suucha_riichi(&events));
}
