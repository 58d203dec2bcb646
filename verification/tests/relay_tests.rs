use ms::relay::{delivers_to, RelayRooms};

#[test]
fn rooms_count_their_clients() {
    let mut rooms = RelayRooms::new();
    assert_eq!(rooms.clients(42), 0);
    assert_eq!(rooms.enter(42), 1);
    assert_eq!(rooms.enter(42), 2);
    assert_eq!(rooms.enter(7), 1);
    assert_eq!(rooms.clients(42), 2);
    assert_eq!(rooms.clients(7), 1);
}

#[test]
fn a_room_closes_when_its_last_client_leaves() {
    let mut rooms = RelayRooms::new();
    rooms.enter(42);
    rooms.enter(42);
    assert!(!rooms.exit(42));
    assert_eq!(rooms.clients(42), 1);
    assert!(rooms.exit(42));
    assert_eq!(rooms.clients(42), 0);
    assert!(!rooms.exit(42));
    assert!(!rooms.exit(9));
}

#[test]
fn entering_and_leaving_restores_the_rooms() {
    let mut rooms = RelayRooms::new();
    rooms.enter(1);
    rooms.enter(1);
    rooms.enter(2);
    rooms.enter(3);
    rooms.exit(3);
    assert_eq!((rooms.clients(1), rooms.clients(2), rooms.clients(3)), (2, 1, 0));
    rooms.enter(1);
    rooms.exit(1);
    assert_eq!((rooms.clients(1), rooms.clients(2), rooms.clients(3)), (2, 1, 0));
}

#[test]
fn events_go_to_everyone_but_their_sender() {
    assert!(delivers_to(1, 2));
    assert!(!delivers_to(3, 3));
}
