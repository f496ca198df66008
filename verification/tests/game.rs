use riichi::calls::ResponseAction;
use riichi::game::{GameError, GameEvent, GameState, ReplayError, TurnPhase};
use riichi::player::PlayerId;
use riichi::tile::{MeldKind, Tile};

fn sorted_wall() -> Vec<Tile> {
    (0u8..136).map(Tile::from_raw).collect()
}

fn fresh(wall: &Vec<Tile>) -> GameState {
    GameState::start_round(wall, 0, [25000; 4], 0, false)
}

fn replay(wall: &Vec<Tile>, events: &[GameEvent]) -> GameState {
    let mut g = fresh(wall);
    for e in events {
        g.apply_event(e).unwrap();
    }
    g
}

fn same_table(a: &GameState, b: &GameState) {
    assert_eq!(a.hands, b.hands);
    assert_eq!(a.discards, b.discards);
    assert_eq!(a.wall, b.wall);
    assert_eq!(a.phase, b.phase);
    assert_eq!(a.points, b.points);
    assert_eq!(a.furiten, b.furiten);
    assert_eq!(a.events.len(), b.events.len());
    for s in 0..4 {
        assert_eq!(a.melds[s].len(), b.melds[s].len());
        for (m, n) in a.melds[s].iter().zip(b.melds[s].iter()) {
            assert_eq!(m.kind, n.kind);
            assert_eq!(m.tiles, n.tiles);
            assert_eq!(m.from_player, n.from_player);
        }
    }
}

#[test]
fn dealing_gives_thirteen_tiles_and_the_dealer_draws() {
    let wall = sorted_wall();
    let g = fresh(&wall);
    assert_eq!(g.hands[0].len(), 13);
    assert_eq!(g.hands[1][0], Tile::from_raw(4));
    assert_eq!(g.hands[3][12], Tile::from_raw(51));
    assert_eq!(g.wall.len(), 136 - 52);
    assert_eq!(g.phase, TurnPhase::Draw { player: PlayerId(0) });
}

#[test]
fn response_pass_by_discarder_advances_to_draw_phase() {
    let wall = sorted_wall();
    let mut g = fresh(&wall);
    let drawn = g.draw().unwrap();
    assert_eq!(drawn, Tile::from_raw(52));
    g.discard(drawn).unwrap();
    assert_eq!(g.phase, TurnPhase::Response { discarder: PlayerId(0), tile: drawn });
    g.execute_response_call(PlayerId(0), ResponseAction::Pass, drawn, PlayerId(0), None).unwrap();
    assert_eq!(g.phase, TurnPhase::Draw { player: PlayerId(1) });
    assert_eq!(g.discards[0], vec![drawn]);
}

#[test]
fn draw_and_discard_events_fold_back_to_the_same_state() {
    let wall = sorted_wall();
    let mut g = fresh(&wall);
    let drawn = g.draw().unwrap();
    g.discard(drawn).unwrap();
    g.execute_response_call(PlayerId(0), ResponseAction::Pass, drawn, PlayerId(0), None).unwrap();
    g.draw().unwrap();
    let replayed = replay(&wall, &g.events);
    same_table(&replayed, &g);
}

#[test]
fn minkan_round_replays_consistently() {
    let mut wall = sorted_wall();
    // Seat 1 holds three 1m at deal positions 4-6; the dealer draws the fourth.
    let targets = [4usize, 5, 6, 52];
    for (i, &p) in targets.iter().enumerate() {
        wall.swap(i, p);
    }
    let mut g = fresh(&wall);
    let drawn = g.draw().unwrap();
    assert_eq!(drawn, Tile::from_raw(3));
    g.discard(drawn).unwrap();
    let kan = ResponseAction::Minkan { hand_tiles: [Tile::from_raw(0), Tile::from_raw(1), Tile::from_raw(2)] };
    let events = g.execute_response_call(PlayerId(1), kan, drawn, PlayerId(0), None).unwrap();
    assert_eq!(events.len(), 1);
    assert_eq!(g.phase, TurnPhase::Chankan { player: PlayerId(1), tile: drawn });
    assert_eq!(g.melds[1].len(), 1);
    assert_eq!(g.melds[1][0].kind, MeldKind::Minkan);
    assert_eq!(g.hands[1].len(), 10);
    let replayed = replay(&wall, &g.events);
    same_table(&replayed, &g);
}

#[test]
fn pon_forbids_the_called_kind_and_ron_pays_and_ends_the_round() {
    let mut wall = sorted_wall();
    // Seat 1 is dealt raw 4, 5, 6 (2m); the dealer draws raw 7, the fourth 2m.
    wall.swap(7, 52);
    let mut g = fresh(&wall);
    let drawn = g.draw().unwrap();
    assert_eq!(drawn, Tile::from_raw(7));
    g.discard(drawn).unwrap();
    let pon = ResponseAction::Pon { hand_tiles: [Tile::from_raw(4), Tile::from_raw(5)] };
    g.execute_response_call(PlayerId(1), pon, drawn, PlayerId(0), None).unwrap();
    assert_eq!(g.phase, TurnPhase::Action { player: PlayerId(1), drawn: None });
    assert_eq!(g.melds[1][0].tiles, vec![Tile::from_raw(4), Tile::from_raw(5), Tile::from_raw(7)]);
    assert_eq!(g.discard(Tile::from_raw(6)), Err(GameError::Kuikae));
    g.discard(Tile::from_raw(20)).unwrap();
    let replayed = replay(&wall, &g.events);
    same_table(&replayed, &g);

    let wall = sorted_wall();
    let mut h = fresh(&wall);
    let drawn = h.draw().unwrap();
    h.discard(drawn).unwrap();
    let changes = [-8000, 8000, 0, 0];
    h.execute_response_call(PlayerId(1), ResponseAction::Ron, drawn, PlayerId(0), Some(changes)).unwrap();
    assert_eq!(h.points, [17000, 33000, 25000, 25000]);
    assert_eq!(h.phase, TurnPhase::RoundOver);
    assert_eq!(h.hands[1].len(), 14);
    let replayed = replay(&wall, &h.events);
    same_table(&replayed, &h);
}

#[test]
fn an_event_that_does_not_fit_leaves_the_state() {
    let wall = sorted_wall();
    let mut g = fresh(&wall);
    let e = GameEvent::Drew { player: PlayerId(2), tile: Tile::from_raw(52) };
    assert_eq!(g.apply_event(&e), Err(ReplayError::Mismatch));
    assert_eq!(g.phase, TurnPhase::Draw { player: PlayerId(0) });
    let wrong = GameEvent::Discarded { player: PlayerId(0), tile: Tile::from_raw(60) };
    g.draw().unwrap();
    assert_eq!(g.apply_event(&wrong), Err(ReplayError::Refused(GameError::TileNotInHand(Tile::from_raw(60)))));
    assert_eq!(g.hands[0].len(), 13);
}

#[test]
fn an_empty_wall_ends_in_an_exhaustive_draw() {
    let wall: Vec<Tile> = (0u8..52).map(Tile::from_raw).collect();
    let mut g = fresh(&wall);
    assert_eq!(g.draw(), Err(GameError::WallExhausted));
    assert_eq!(g.phase, TurnPhase::RoundOver);
    assert!(matches!(g.events.last(), Some(GameEvent::ExhaustiveDraw { .. })));
    let replayed = replay(&wall, &g.events);
    same_table(&replayed, &g);
}

#[test]
fn turn_and_drawn_tile_follow_the_phase() {
    let wall = sorted_wall();
    let mut g = fresh(&wall);
    assert_eq!(g.current_player(), Some(PlayerId(0)));
    assert_eq!(g.drawn_tile(), None);
    assert_eq!(g.remaining_tiles(), 84);
    let t = g.draw().unwrap();
    assert_eq!(g.drawn_tile(), Some(t));
    assert_eq!(g.remaining_tiles(), 83);
    assert!(!g.is_round_over());
    g.discard(t).unwrap();
    assert_eq!(g.current_player(), Some(PlayerId(0)));
}
