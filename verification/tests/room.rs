use riichi::player::PlayerId;
use riichi::room::{RoomError, RoomManager, SeatController};

#[test]
fn four_players_get_stable_seats_and_only_ready_rooms_start() {
    let mut manager = RoomManager::new();
    let room_id = manager.create_room();
    let mut seats = Vec::new();
    for name in ["东", "南", "西", "北"] {
        seats.push(manager.join(&room_id, name).unwrap());
    }

    assert_eq!(seats[0].0 .0, 0);
    assert_eq!(seats[3].0 .0, 3);
    assert_eq!(manager.join(&room_id, "替补"), Err(RoomError::Full));

    for (player, _) in &seats {
        manager
            .room_mut(&room_id)
            .unwrap()
            .set_ready(*player, true)
            .unwrap();
    }
    manager
        .room_mut(&room_id)
        .unwrap()
        .start(seats[0].0)
        .unwrap();
    assert!(manager.room(&room_id).unwrap().started);
    assert_eq!(manager.join(&room_id, "观众"), Err(RoomError::Started));
}

#[test]
fn reconnect_token_restores_the_original_seat() {
    let mut manager = RoomManager::new();
    let room_id = manager.create_room();
    let (player, token) = manager.join(&room_id, "玩家").unwrap();

    assert_eq!(
        manager.room_mut(&room_id).unwrap().reconnect(&token),
        Ok(player)
    );
    assert_eq!(
        manager.room_mut(&room_id).unwrap().reconnect("invalid"),
        Err(RoomError::InvalidToken)
    );
}

#[test]
fn connection_lifecycle_updates_only_the_token_owner() {
    let mut manager = RoomManager::new();
    let room_id = manager.create_room();
    let (player, token) = manager.join(&room_id, "玩家").unwrap();
    assert!(
        manager
            .room(&room_id)
            .unwrap()
            .player(player)
            .unwrap()
            .connected
    );

    manager
        .room_mut(&room_id)
        .unwrap()
        .disconnect_by_token(&token)
        .unwrap();
    assert!(
        !manager
            .room(&room_id)
            .unwrap()
            .player(player)
            .unwrap()
            .connected
    );
    manager
        .room_mut(&room_id)
        .unwrap()
        .connect_by_token(&token)
        .unwrap();
    assert!(
        manager
            .room(&room_id)
            .unwrap()
            .player(player)
            .unwrap()
            .connected
    );
}

#[test]
fn owner_can_configure_zero_to_three_ai_seats() {
    let mut manager = RoomManager::new();
    let room_id = manager.create_room();
    let (owner, owner_token) = manager.join(&room_id, "房主").unwrap();

    manager
        .room_mut(&room_id)
        .unwrap()
        .set_ai_count(owner, 3)
        .unwrap();

    let room = manager.room(&room_id).unwrap();
    assert_eq!(room.owner, Some(owner));
    assert_eq!(room.ai_players().len(), 3);
    assert_eq!(room.player_by_token(&owner_token).unwrap(), owner);
}

#[test]
fn non_owner_cannot_change_ai_count_or_start_room() {
    let mut manager = RoomManager::new();
    let room_id = manager.create_room();
    let (owner, _) = manager.join(&room_id, "房主").unwrap();
    let (guest, _) = manager.join(&room_id, "玩家").unwrap();

    assert_eq!(
        manager.room_mut(&room_id).unwrap().set_ai_count(guest, 2),
        Err(RoomError::NotRoomOwner)
    );
    assert_eq!(
        manager.room_mut(&room_id).unwrap().start(guest),
        Err(RoomError::NotRoomOwner)
    );
    assert_ne!(owner, guest);
}

#[test]
fn one_human_and_three_ai_can_start_after_human_ready() {
    let mut manager = RoomManager::new();
    let room_id = manager.create_room();
    let (owner, _) = manager.join(&room_id, "房主").unwrap();
    manager
        .room_mut(&room_id)
        .unwrap()
        .set_ai_count(owner, 3)
        .unwrap();
    manager
        .room_mut(&room_id)
        .unwrap()
        .set_ready(owner, true)
        .unwrap();

    manager.room_mut(&room_id).unwrap().start(owner).unwrap();
    assert!(manager.room(&room_id).unwrap().started);
}

#[test]
fn room_ids_count_up_in_six_hex_digits() {
    let mut manager = RoomManager::new();
    assert_eq!(manager.create_room(), "000001");
    assert_eq!(manager.create_room(), "000002");
    assert_eq!(manager.room("nope").err(), Some(RoomError::NotFound));
    assert_eq!(manager.join("nope", "x"), Err(RoomError::NotFound));
}

#[test]
fn tokens_are_sixty_four_hex_digits() {
    let mut manager = RoomManager::new();
    let room_id = manager.create_room();
    let (_, a) = manager.join(&room_id, "a").unwrap();
    let (_, b) = manager.join(&room_id, "b").unwrap();
    assert_eq!(a.len(), 64);
    assert!(a.chars().all(|c| c.is_ascii_digit() || ('a'..='f').contains(&c)));
    assert_ne!(a, b);
}

#[test]
fn blank_nickname_is_refused() {
    let mut manager = RoomManager::new();
    let room_id = manager.create_room();
    assert_eq!(manager.join(&room_id, "  \t"), Err(RoomError::EmptyNickname));
    assert_eq!(manager.join(&room_id, ""), Err(RoomError::EmptyNickname));
    assert_eq!(manager.join(&room_id, "\u{3000}\u{a0}"), Err(RoomError::EmptyNickname));
    assert!(manager.join(&room_id, " x ").is_ok());
}

#[test]
fn first_player_owns_the_room() {
    let mut manager = RoomManager::new();
    let room_id = manager.create_room();
    let (first, _) = manager.join(&room_id, "a").unwrap();
    let _ = manager.join(&room_id, "b").unwrap();
    assert_eq!(manager.room(&room_id).unwrap().owner, Some(first));
}

#[test]
fn ai_count_errors_and_refill() {
    let mut manager = RoomManager::new();
    let room_id = manager.create_room();
    let (owner, _) = manager.join(&room_id, "a").unwrap();
    let _ = manager.join(&room_id, "b").unwrap();
    let room = manager.room_mut(&room_id).unwrap();
    assert_eq!(room.set_ai_count(owner, 4), Err(RoomError::InvalidAiCount));
    assert_eq!(room.set_ai_count(owner, 3), Err(RoomError::InvalidAiCount));
    room.set_ai_count(owner, 2).unwrap();
    assert_eq!(room.ai_players(), vec![PlayerId(2), PlayerId(3)]);
    room.set_ai_count(owner, 1).unwrap();
    assert_eq!(room.ai_players(), vec![PlayerId(3)]);
    assert!(room.players[2].is_none());
    assert_eq!(room.player(PlayerId(3)).unwrap().controller, SeatController::AiFill);
    assert_eq!(room.player(PlayerId(3)).unwrap().nickname, "AI");
}

#[test]
fn start_needs_everyone_ready() {
    let mut manager = RoomManager::new();
    let room_id = manager.create_room();
    let (owner, _) = manager.join(&room_id, "a").unwrap();
    let room = manager.room_mut(&room_id).unwrap();
    assert_eq!(room.start(owner), Err(RoomError::NotAllReady));
    room.set_ai_count(owner, 3).unwrap();
    assert_eq!(room.start(owner), Err(RoomError::NotAllReady));
    assert!(!room.all_ready());
    room.set_ready(owner, true).unwrap();
    assert!(room.all_ready());
    assert_eq!(room.start(owner), Ok(()));
    assert_eq!(room.start(owner), Err(RoomError::Started));
    assert_eq!(room.set_ready(owner, false), Err(RoomError::Started));
}

#[test]
fn takeover_and_reconnect_move_the_generation() {
    let mut manager = RoomManager::new();
    let room_id = manager.create_room();
    let (player, token) = manager.join(&room_id, "a").unwrap();
    let room = manager.room_mut(&room_id).unwrap();
    assert_eq!(room.connection_generation(player), Ok(0));
    assert_eq!(room.mark_ai_takeover(player), Err(RoomError::InvalidPlayer));
    assert_eq!(room.disconnect_by_token(&token), Ok((player, 1)));
    assert_eq!(room.mark_ai_takeover(player), Ok(()));
    assert_eq!(room.player(player).unwrap().controller, SeatController::AiTakeover);
    assert_eq!(room.ai_players(), vec![player]);
    assert_eq!(room.disconnect_by_token(&token), Err(RoomError::InvalidToken));
    assert_eq!(room.connect_by_token(&token), Ok(player));
    assert_eq!(room.player(player).unwrap().controller, SeatController::Human);
    assert_eq!(room.connection_generation(player), Ok(2));
    assert_eq!(room.connection_generation(PlayerId(1)), Err(RoomError::InvalidPlayer));
    assert_eq!(room.set_ready_with_token("bad", true), Err(RoomError::InvalidToken));
    assert_eq!(room.set_ready_with_token(&token, true), Ok(player));
    assert!(room.player(player).unwrap().ready);
}

#[test]
fn closing_a_room_removes_it() {
    let mut manager = RoomManager::new();
    let room_id = manager.create_room();
    let room = manager.close_room(&room_id).unwrap();
    assert_eq!(room.id, room_id);
    assert_eq!(manager.room(&room_id).err(), Some(RoomError::NotFound));
    assert!(manager.close_room(&room_id).is_err());
}

#[test]
fn room_errors_read_as_the_server_shows_them() {
    assert_eq!(RoomError::NotFound.message(), "房间不存在");
    assert_eq!(RoomError::InvalidToken.message(), "连接凭证无效");
    assert_eq!(RoomError::NoHumanPlayers.message(), "至少需要一名真人玩家");
}
