use riichi::application::{create_room, join_room, room_info, set_ready};
use riichi::room::{RoomError, RoomManager};

#[test]
fn application_checks_token_before_changing_ready_state() {
    let mut rooms = RoomManager::new();
    let room = create_room(&mut rooms);
    let joined = join_room(&mut rooms, &room.id, "玩家").unwrap();

    assert!(matches!(set_ready(&mut rooms, &room.id, "wrong-token", true), Err(RoomError::InvalidToken)));
    let updated = set_ready(&mut rooms, &room.id, &joined.token, true).unwrap();
    assert!(updated.players[0].ready);
}

#[test]
fn room_info_shows_the_seated_players_in_seat_order() {
    let mut rooms = RoomManager::new();
    let room = create_room(&mut rooms);
    assert_eq!(room.id, "000001");
    assert!(room.players.is_empty() && !room.started);
    let first = join_room(&mut rooms, &room.id, "east").unwrap();
    let second = join_room(&mut rooms, &room.id, "south").unwrap();
    assert_eq!(first.player.0, 0);
    assert_eq!(second.player.0, 1);
    assert_eq!(second.room.players.len(), 2);
    assert_eq!(second.room.players[0].nickname, "east");
    assert_eq!(second.room.players[1].nickname, "south");
    let shown = room_info(rooms.room(&room.id).unwrap());
    assert_eq!(shown.players.len(), 2);
    assert!(matches!(join_room(&mut rooms, "FFFFFF", "west"), Err(RoomError::NotFound)));
    assert!(matches!(set_ready(&mut rooms, "FFFFFF", &first.token, true), Err(RoomError::NotFound)));
}
