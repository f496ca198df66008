use riichi::legal::TurnAction;
use riichi::session::{follow_up, normalize_turn, SessionTurn, TurnFollowUp};
use riichi::tile::Tile;

fn is(a: Option<TurnAction>, b: Option<TurnAction>) -> bool {
    format!("{:?}", a) == format!("{:?}", b)
}

#[test]
fn riichi_without_a_tile_takes_the_first_allowed_discard() {
    let options = [Tile::from_raw(8), Tile::from_raw(12)];
    assert!(is(normalize_turn(SessionTurn::Riichi, &options), Some(TurnAction::RiichiDiscard(Tile::from_raw(8)))));
    assert!(is(normalize_turn(SessionTurn::Riichi, &[]), None));
    assert!(is(
        normalize_turn(SessionTurn::Discard(Tile::from_raw(4)), &options),
        Some(TurnAction::Discard(Tile::from_raw(4)))
    ));
}

#[test]
fn follow_up_of_each_turn_action() {
    assert_eq!(follow_up(TurnAction::Discard(Tile::from_raw(0))), TurnFollowUp::ResponseWindow);
    assert_eq!(follow_up(TurnAction::Kakan(0, Tile::from_raw(0))), TurnFollowUp::ResponseWindow);
    assert_eq!(follow_up(TurnAction::Tsumo), TurnFollowUp::RoundEnd);
    assert_eq!(follow_up(TurnAction::KyuushuKyuuhai), TurnFollowUp::RoundEnd);
    assert_eq!(follow_up(TurnAction::Ankan(Tile::from_raw(0))), TurnFollowUp::StateOnly);
}
