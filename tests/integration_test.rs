use hotel_booking::Contract;

// The account that registers rooms and the one that books them.
fn owner() -> String {
    "bob".to_string()
}

fn guest() -> String {
    "charlie".to_string()
}

fn add_room(contract: &mut Contract, name: &str, description: &str) {
    let r = contract.add_room_to_owner(
        owner(),
        name.to_string(),
        "test.img".to_string(),
        1,
        description.to_string(),
        "Tokyo".to_string(),
        10,
    );
    assert!(r.is_ok());
}

#[test]
fn integration_test_add_then_get_registered_rooms() {
    let mut contract = Contract::default();
    add_room(&mut contract, "101", "This is 101 room");
    add_room(&mut contract, "201", "This is 201 room");

    let all_rooms = contract.get_rooms_registered_by_owner(owner());
    assert_eq!(all_rooms.len(), 2);
}

#[test]
fn integration_test_no_registered_room() {
    let contract = Contract::default();

    let no_registered_room = contract.get_rooms_registered_by_owner("alice".to_string());
    assert_eq!(no_registered_room.len(), 0);
}

#[test]
fn integration_test_add_then_get_available_rooms() {
    let mut contract = Contract::default();
    add_room(&mut contract, "101", "This is 101 room");
    add_room(&mut contract, "201", "This is 201 room");

    let available_rooms = contract.get_available_rooms("2222-01-01".to_string());
    assert_eq!(available_rooms.len(), 2);
}

#[test]
fn integration_test_no_available_room() {
    let contract = Contract::default();

    let available_rooms = contract.get_available_rooms("2222-01-01".to_string());
    assert_eq!(available_rooms.len(), 0);
}

// Room owner: bob. Booking guest: charlie.
#[test]
fn integration_test_book_room_then_change_status() {
    let owner_id = owner();
    let name = "101".to_string();
    let room_id = format!("{}{}", owner_id, name);

    let mut contract = Contract::default();
    add_room(&mut contract, &name, "This is 101 room");

    let check_in_date: String = "2222-01-01".to_string();

    let booked = contract.book_room(room_id.clone(), check_in_date.clone(), guest(), 10);
    assert!(booked.is_ok());

    let booked_rooms = contract.get_booking_info_for_owner(owner_id.clone());
    assert_eq!(booked_rooms.len(), 1);

    let guest_booked_rooms = contract.get_booking_info_for_guest(guest());
    assert_eq!(guest_booked_rooms.len(), 1);

    let is_available = contract.is_available(room_id.clone());
    assert_eq!(is_available, Ok(true));

    let stay = contract.change_status_to_stay(room_id.clone(), check_in_date.clone());
    assert!(stay.is_ok());

    let is_available = contract.is_available(room_id.clone());
    assert_eq!(is_available, Ok(false));

    let released = contract.change_status_to_available(room_id, check_in_date, guest());
    assert!(released.is_ok());
    let booked_rooms = contract.get_booking_info_for_owner(owner_id);
    assert_eq!(booked_rooms.len(), 0);

    let guest_booked_info = contract.get_booking_info_for_guest(guest());
    assert_eq!(guest_booked_info.len(), 0);
}
