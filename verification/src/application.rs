use vstd::prelude::*;
use crate::player::PlayerId;
use crate::room::{
    join_outcome, lemma_room_index_from, lemma_room_index_same_ids, manager_wf, room_id_text, room_index,
    room_wf, seated, Room, RoomError, RoomManager, RoomPlayer, RoomState, SeatView,
};

verus! {

/// What a client is shown of a room: its id, the seated players, and
/// whether its game has started.
#[derive(Debug)]
pub struct RoomInfo {
    pub id: String,
    pub players: Vec<RoomPlayer>,
    pub started: bool,
}

/// What a client is told on joining: the room, its seat, and its token.
#[derive(Debug)]
pub struct JoinInfo {
    pub room: RoomInfo,
    pub player: PlayerId,
    pub token: String,
}

/// The info shows the room.
pub open spec fn shows(info: RoomInfo, r: RoomState) -> bool {
    &&& info.id@ == r.id
    &&& info.players@.map_values(|p: RoomPlayer| p@) == seated(r.seats, 4)
    &&& info.started == r.started
}

/// What a client is shown of the room.
pub fn room_info(room: &Room) -> (info: RoomInfo)
    ensures
        shows(info, room@),
{
    RoomInfo { id: room.id_text(), players: room.seated_players(), started: room.has_started() }
}

/// Opens a room and shows it: empty, not started, under the next id.
pub fn create_room(rooms: &mut RoomManager) -> (info: RoomInfo)
    requires
        manager_wf(old(rooms)@),
    ensures
        manager_wf(final(rooms)@),
        info.id@ == room_id_text(old(rooms).next_number()),
        info.players@.len() == 0,
        !info.started,
        final(rooms).next_number() == crate::room::next_generation(old(rooms).next_number()),
        room_index(final(rooms)@, info.id@) matches Some(i) && final(rooms)@[i].seats == seq![
            None::<SeatView>,
            None,
            None,
            None,
        ],
{
    let ghost before = rooms@;
    let id = rooms.create_room();
    proof {
        lemma_room_index_from(before, id@, 0);
        lemma_room_index_from(rooms@, id@, 0);
        match room_index(before, id@) {
            Some(i) => {
                assert(rooms@[i].id == id@);
                assert(room_index(rooms@, id@) == Some(i)) by {
                    lemma_room_index_same_ids(before, rooms@.update(i, before[i]), id@, 0);
                    assert(rooms@.update(i, before[i]) =~= before);
                    lemma_first_index_kept(rooms@, i, id@);
                }
            },
            None => {
                assert(rooms@[before.len() as int].id == id@);
                lemma_index_of_pushed(before, rooms@, id@);
            },
        }
    }
    let room = match rooms.room(id.as_str()) {
        Ok(room) => room,
        Err(_) => {
            proof {
                assert(false);
            }
            return RoomInfo { id, players: Vec::new(), started: false };
        },
    };
    let info = room_info(room);
    proof {
        reveal_with_fuel(seated, 5);
        assert(info.players@.map_values(|p: RoomPlayer| p@).len() == 0);
    }
    info
}

proof fn lemma_first_index_kept(rooms: Seq<RoomState>, i: int, id: Seq<char>)
    requires
        0 <= i < rooms.len(),
        rooms[i].id == id,
        forall|a: int, b: int| 0 <= a < b < rooms.len() ==> #[trigger] rooms[a].id != #[trigger] rooms[b].id,
    ensures
        room_index(rooms, id) == Some(i),
{
    lemma_room_index_from(rooms, id, 0);
    if let Some(k) = room_index(rooms, id) {
        assert(rooms[k].id == id);
        if k != i {
            if k < i {
                assert(rooms[k].id != rooms[i].id);
            } else {
                assert(rooms[i].id != rooms[k].id);
            }
        }
    }
}

proof fn lemma_index_of_pushed(before: Seq<RoomState>, after: Seq<RoomState>, id: Seq<char>)
    requires
        room_index(before, id) is None,
        after.len() == before.len() + 1,
        forall|k: int| 0 <= k < before.len() ==> after[k] == before[k],
        after[before.len() as int].id == id,
    ensures
        room_index(after, id) == Some(before.len() as int),
{
    lemma_room_index_from(before, id, 0);
    lemma_room_index_from(after, id, 0);
    if let Some(k) = room_index(after, id) {
        if k < before.len() {
            assert(before[k].id != id);
        }
    }
}

/// Joins a room and shows it: refused with `NotFound` when no room has the
/// id, else as joining the room goes (see `join_outcome`), with the room
/// shown after the join.
pub fn join_room(rooms: &mut RoomManager, room_id: &str, nickname: &str) -> (r: Result<JoinInfo, RoomError>)
    requires
        manager_wf(old(rooms)@),
    ensures
        manager_wf(final(rooms)@),
        final(rooms).next_number() == old(rooms).next_number(),
        room_index(old(rooms)@, room_id@) is None ==> r is Err && r->Err_0 == RoomError::NotFound
            && final(rooms)@ == old(rooms)@,
        room_index(old(rooms)@, room_id@) matches Some(i) ==> final(rooms)@ == old(rooms)@.update(i, final(rooms)@[i])
            && match r {
            Ok(j) => join_outcome(old(rooms)@[i], nickname@, Ok((j.player, j.token)), final(rooms)@[i]) && shows(
                j.room,
                final(rooms)@[i],
            ),
            Err(e) => join_outcome(old(rooms)@[i], nickname@, Err(e), final(rooms)@[i]),
        },
{
    let ghost before = rooms@;
    let (player, token) = match rooms.join(room_id, nickname) {
        Ok(joined) => joined,
        Err(e) => {
            return Err(e);
        },
    };
    proof {
        assert(room_index(before, room_id@) is Some);
        let i = room_index(before, room_id@)->Some_0;
        lemma_room_index_from(before, room_id@, 0);
        assert(rooms@ == before.update(i, rooms@[i]));
        assert forall|k: int| 0 <= k < before.len() implies (#[trigger] before[k]).id == rooms@[k].id by {
            if k == i {
                assert(rooms@[i].id == before[i].id);
            }
        }
        lemma_room_index_same_ids(before, rooms@, room_id@, 0);
    }
    let room = match rooms.room(room_id) {
        Ok(room) => room,
        Err(e) => {
            proof {
                assert(false);
            }
            return Err(e);
        },
    };
    Ok(JoinInfo { room: room_info(room), player, token })
}

/// Sets readiness by token and shows the room: refused with `NotFound`
/// when no room has the id, else as `Room::set_ready_with_token` goes.
pub fn set_ready(rooms: &mut RoomManager, room_id: &str, token: &str, ready: bool) -> (r: Result<RoomInfo, RoomError>)
    requires
        manager_wf(old(rooms)@),
    ensures
        manager_wf(final(rooms)@),
        final(rooms).next_number() == old(rooms).next_number(),
        room_index(old(rooms)@, room_id@) is None ==> r is Err && r->Err_0 == RoomError::NotFound
            && final(rooms)@ == old(rooms)@,
        room_index(old(rooms)@, room_id@) matches Some(i) ==> final(rooms)@ == old(rooms)@.update(i, final(rooms)@[i])
            && crate::room::ready_by_token_outcome(
            old(rooms)@[i],
            token@,
            ready,
            match r {
                Ok(_) => Ok(crate::room::ready_seat(old(rooms)@[i], token@)),
                Err(e) => Err(e),
            },
            final(rooms)@[i],
        ) && (r matches Ok(info) ==> shows(info, final(rooms)@[i])),
{
    let ghost before = rooms@;
    let outcome = match rooms.room_mut(room_id) {
        Ok(room) => {
            proof {
                let i = room_index(before, room_id@)->Some_0;
                lemma_room_index_from(before, room_id@, 0);
                assert(room_wf(before[i]));
            }
            room.set_ready_with_token(token, ready)
        },
        Err(e) => {
            return Err(e);
        },
    };
    if let Err(e) = outcome {
        return Err(e);
    }
    proof {
        let i = room_index(before, room_id@)->Some_0;
        assert forall|k: int| 0 <= k < before.len() implies (#[trigger] before[k]).id == rooms@[k].id by {
            if k == i {
                assert(rooms@[i].id == before[i].id);
            }
        }
        lemma_room_index_same_ids(before, rooms@, room_id@, 0);
    }
    match rooms.room(room_id) {
        Ok(room) => Ok(room_info(room)),
        Err(e) => {
            proof {
                assert(false);
            }
            Err(e)
        },
    }
}

} // verus!
