//! The rooms of the TCP relay: how many clients each holds, so that a room
//! closes when its last client leaves.
use std::collections::HashMap;
use vstd::prelude::*;

use crate::midi::{ClientId, RoomId};

verus! {

/// The number of connected clients of each open room.
pub struct RelayRooms {
    members: HashMap<RoomId, usize>,
}

impl View for RelayRooms {
    type V = Map<RoomId, usize>;

    closed spec fn view(&self) -> Map<RoomId, usize> {
        self.members@
    }
}

/// The clients of `room` (none where it is not open).
pub open spec fn occupancy(rooms: Map<RoomId, usize>, room: RoomId) -> nat {
    if rooms.contains_key(room) {
        rooms[room] as nat
    } else {
        0
    }
}

/// The rooms after a client joins `room`.
pub open spec fn spec_enter(rooms: Map<RoomId, usize>, room: RoomId) -> Map<RoomId, usize> {
    rooms.insert(room, (occupancy(rooms, room) + 1) as usize)
}

/// The rooms after a client leaves `room`: one client fewer, and the room
/// closed when none is left.
pub open spec fn spec_exit(rooms: Map<RoomId, usize>, room: RoomId) -> Map<RoomId, usize> {
    if occupancy(rooms, room) == 0 {
        rooms
    } else if occupancy(rooms, room) == 1 {
        rooms.remove(room)
    } else {
        rooms.insert(room, (rooms[room] - 1) as usize)
    }
}

/// Every open room has a client.
pub open spec fn no_empty_rooms(rooms: Map<RoomId, usize>) -> bool {
    forall|r: RoomId| #[trigger] rooms.contains_key(r) ==> rooms[r] > 0
}

impl RelayRooms {
    #[verifier::type_invariant]
    spec fn inv(self) -> bool {
        no_empty_rooms(self.members@)
    }

    /// No room is open.
    pub fn new() -> (rooms: Self)
        ensures
            rooms@ == Map::<RoomId, usize>::empty(),
    {
        let rooms = RelayRooms { members: HashMap::new() };
        assert(rooms.members@ =~= Map::<RoomId, usize>::empty());
        rooms
    }

    /// The number of clients in `room`.
    pub fn clients(&self, room: RoomId) -> (n: usize)
        ensures
            n == occupancy(self@, room),
    {
        broadcast use vstd::std_specs::hash::group_hash_axioms;

        match self.members.get(&room) {
            Some(n) => *n,
            None => 0,
        }
    }

    /// A client joins `room`, opening it if needed; gives the room's new
    /// number of clients.
    pub fn enter(&mut self, room: RoomId) -> (n: usize)
        requires
            occupancy(old(self)@, room) < usize::MAX,
        ensures
            n == occupancy(old(self)@, room) + 1,
            final(self)@ == spec_enter(old(self)@, room),
            no_empty_rooms(final(self)@),
    {
        broadcast use vstd::std_specs::hash::group_hash_axioms;

        proof {
            use_type_invariant(&*self);
        }
        let n = self.clients(room) + 1;
        let mut members: HashMap<RoomId, usize> = HashMap::new();
        std::mem::swap(&mut members, &mut self.members);
        members.insert(room, n);
        assert(no_empty_rooms(members@));
        self.members = members;
        n
    }

    /// A client leaves `room`; the room closes when no client is left in it.
    /// Gives whether it closed.
    pub fn exit(&mut self, room: RoomId) -> (closed: bool)
        ensures
            closed == (occupancy(old(self)@, room) == 1),
            final(self)@ == spec_exit(old(self)@, room),
            no_empty_rooms(final(self)@),
    {
        broadcast use vstd::std_specs::hash::group_hash_axioms;

        proof {
            use_type_invariant(&*self);
        }
        let n = self.clients(room);
        if n == 0 {
            return false;
        }
        let mut members: HashMap<RoomId, usize> = HashMap::new();
        std::mem::swap(&mut members, &mut self.members);
        let closed = if n == 1 {
            members.remove(&room);
            true
        } else {
            members.insert(room, n - 1);
            false
        };
        assert(no_empty_rooms(members@));
        self.members = members;
        closed
    }
}

/// Whether an event sent by `sender_id` goes out to `client_id`: every
/// client of the room gets it but the one that sent it.
pub fn delivers_to(sender_id: ClientId, client_id: ClientId) -> (res: bool)
    ensures
        res == (sender_id != client_id),
{
    sender_id != client_id
}

/// A client that joins a room and leaves it again leaves every room as it
/// was.
pub proof fn lemma_enter_then_exit(rooms: Map<RoomId, usize>, room: RoomId)
    requires
        no_empty_rooms(rooms),
        occupancy(rooms, room) < usize::MAX,
    ensures
        spec_exit(spec_enter(rooms, room), room) == rooms,
{
    let entered = spec_enter(rooms, room);
    assert(occupancy(entered, room) == occupancy(rooms, room) + 1);
    if rooms.contains_key(room) {
        assert(entered.insert(room, (entered[room] - 1) as usize) =~= rooms);
    } else {
        assert(entered.remove(room) =~= rooms);
    }
}

/// A room closes exactly when its last client leaves.
pub proof fn lemma_exit_closes_only_empty_rooms(rooms: Map<RoomId, usize>, room: RoomId)
    requires
        no_empty_rooms(rooms),
    ensures
        !spec_exit(rooms, room).contains_key(room) <==> occupancy(rooms, room) <= 1,
{
}

} // verus!
