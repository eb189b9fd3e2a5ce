use hotel_booking::{Contract, UsageStatus};

// 1 NEAR is 10^24 yoctoNEAR.
fn near_to_yocto(near_amount: u128) -> u128 {
    near_amount * 10u128.pow(24)
}

// The account that registers rooms in these tests.
fn owner() -> String {
    "bob".to_string()
}

fn add_room(contract: &mut Contract, name: &str, description: &str, price: u128) {
    let r = contract.add_room_to_owner(
        owner(),
        name.to_string(),
        "test.img".to_string(),
        1,
        description.to_string(),
        "Tokyo".to_string(),
        price,
    );
    assert!(r.is_ok());
}

#[test]
fn lib_add_then_get_registered_rooms() {
    let mut contract = Contract::default();
    add_room(&mut contract, "101", "This is 101 room", near_to_yocto(10));
    add_room(&mut contract, "201", "This is 201 room", near_to_yocto(10));

    let all_rooms = contract.get_rooms_registered_by_owner(owner());
    assert_eq!(all_rooms.len(), 2);
}

#[test]
fn lib_no_registered_room() {
    let contract = Contract::default();

    let no_registered_room = contract.get_rooms_registered_by_owner("alice".to_string());
    assert_eq!(no_registered_room.len(), 0);
}

#[test]
fn lib_add_then_get_available_rooms() {
    let mut contract = Contract::default();
    add_room(&mut contract, "101", "This is 101 room", near_to_yocto(10));
    add_room(&mut contract, "201", "This is 201 room", near_to_yocto(10));

    let available_rooms = contract.get_available_rooms("2222-01-01".to_string());
    assert_eq!(available_rooms.len(), 2);
}

#[test]
fn lib_no_available_room() {
    let contract = Contract::default();

    let available_rooms = contract.get_available_rooms("2222-01-01".to_string());
    assert_eq!(available_rooms.len(), 0);
}

// Room owner: bob. Booking guest: charlie.
#[test]
fn lib_book_room_then_change_status() {
    let owner_id = owner();
    let guest_id = "charlie".to_string();
    let mut contract = Contract::default();
    add_room(&mut contract, "101", "This is 101 room", near_to_yocto(10));

    let check_in_date: String = "2222-01-01".to_string();
    let available_rooms = contract.get_available_rooms(check_in_date.clone());

    let booked = contract.book_room(
        available_rooms[0].room_id.clone(),
        check_in_date.clone(),
        guest_id.clone(),
        near_to_yocto(10),
    );
    assert!(booked.is_ok());

    let booked_rooms = contract.get_booking_info_for_owner(owner_id.clone());
    assert_eq!(booked_rooms.len(), 1);
    assert_eq!(booked_rooms[0].check_in_date, check_in_date);
    assert_eq!(booked_rooms[0].guest_id, guest_id);

    let guest_booked_rooms = contract.get_booking_info_for_guest(guest_id.clone());
    assert_eq!(guest_booked_rooms.len(), 1);
    assert_eq!(guest_booked_rooms[0].owner_id, owner_id);

    let is_available = contract.is_available(booked_rooms[0].room_id.clone());
    assert_eq!(is_available, Ok(true));

    let stay = contract.change_status_to_stay(booked_rooms[0].room_id.clone(), check_in_date.clone());
    assert!(stay.is_ok());
    let booked_rooms = contract.get_booking_info_for_owner(owner_id.clone());
    assert_ne!(booked_rooms[0].status, UsageStatus::Available);

    let is_available = contract.is_available(booked_rooms[0].room_id.clone());
    assert_eq!(is_available, Ok(false));

    let released = contract.change_status_to_available(
        available_rooms[0].room_id.clone(),
        check_in_date.clone(),
        booked_rooms[0].guest_id.clone(),
    );
    assert!(released.is_ok());
    let booked_rooms = contract.get_booking_info_for_owner(owner_id.clone());
    assert_eq!(booked_rooms.len(), 0);

    let guest_booked_info = contract.get_booking_info_for_guest(guest_id);
    assert_eq!(guest_booked_info.len(), 0);
}
