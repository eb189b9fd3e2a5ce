use hotel_booking::{Contract, LedgerError, UsageStatus};

fn s(text: &str) -> String {
    text.to_string()
}

fn register(contract: &mut Contract, owner: &str, name: &str, price: u128) -> String {
    contract
        .add_room_to_owner(s(owner), s(name), s("room.png"), 2, s("a quiet room"), s("Kyoto"), price)
        .unwrap()
}

#[test]
fn scenario_alice_and_bob() {
    let mut contract = Contract::default();
    let room_id = register(&mut contract, "alice", "R1", 10);
    assert_eq!(room_id, "aliceR1");

    let receipt = contract.book_room(room_id.clone(), s("2030-01-01"), s("bob"), 10).unwrap();
    assert_eq!(receipt.owner_id, "alice");
    assert_eq!(receipt.amount, 10);
    assert_eq!(receipt.guest_id, "bob");
    assert_eq!(receipt.room_id, "aliceR1");
    assert_eq!(receipt.check_in_date, "2030-01-01");

    let available = contract.get_available_rooms(s("2030-01-01"));
    assert!(available.iter().all(|r| r.room_id != room_id));

    let bob = contract.get_booking_info_for_guest(s("bob"));
    assert_eq!(bob.len(), 1);
    assert_eq!(bob[0].room_name, "R1");
    assert_eq!(bob[0].owner_id, "alice");
    assert_eq!(bob[0].check_in_date, "2030-01-01");

    assert_eq!(contract.change_status_to_stay(room_id.clone(), s("2030-01-01")), Ok(()));
    assert_eq!(contract.change_status_to_available(room_id.clone(), s("2030-01-01"), s("bob")), Ok(()));
    assert_eq!(contract.get_booking_info_for_guest(s("bob")).len(), 0);
    assert_eq!(contract.is_available(room_id), Ok(true));
}

#[test]
fn booking_is_mirrored_in_both_indexes() {
    let mut contract = Contract::default();
    let r1 = register(&mut contract, "alice", "R1", 10);
    let r2 = register(&mut contract, "alice", "R2", 20);
    assert!(contract.book_room(r1.clone(), s("2030-01-01"), s("bob"), 10).is_ok());
    assert!(contract.book_room(r2.clone(), s("2030-01-02"), s("bob"), 20).is_ok());
    assert!(contract.book_room(r2.clone(), s("2030-01-01"), s("carol"), 20).is_ok());

    let rows = contract.get_booking_info_for_owner(s("alice"));
    assert_eq!(rows.len(), 3);
    for row in rows.iter() {
        let guest_rows = contract.get_booking_info_for_guest(row.guest_id.clone());
        let room_name = if row.room_id == r1 { "R1" } else { "R2" };
        assert!(guest_rows
            .iter()
            .any(|g| g.check_in_date == row.check_in_date && g.room_name == room_name));
    }
    assert_eq!(contract.get_booking_info_for_guest(s("bob")).len(), 2);
    assert_eq!(contract.get_booking_info_for_guest(s("carol")).len(), 1);
}

#[test]
fn second_booking_of_a_date_is_refused() {
    let mut contract = Contract::default();
    let room_id = register(&mut contract, "alice", "R1", 10);
    assert!(contract.book_room(room_id.clone(), s("2030-01-01"), s("bob"), 10).is_ok());

    let again = contract.book_room(room_id.clone(), s("2030-01-01"), s("carol"), 10);
    assert_eq!(again.err(), Some(LedgerError::DateAlreadyBooked));
    let same_guest = contract.book_room(room_id.clone(), s("2030-01-01"), s("bob"), 10);
    assert_eq!(same_guest.err(), Some(LedgerError::DateAlreadyBooked));

    let rows = contract.get_booking_info_for_owner(s("alice"));
    assert_eq!(rows.len(), 1);
    assert_eq!(rows[0].guest_id, "bob");
    assert_eq!(contract.get_booking_info_for_guest(s("carol")).len(), 0);
}

#[test]
fn wrong_deposit_is_refused_and_changes_nothing() {
    let mut contract = Contract::default();
    let room_id = register(&mut contract, "alice", "R1", 10);

    let under = contract.book_room(room_id.clone(), s("2030-01-01"), s("bob"), 9);
    assert_eq!(under.err(), Some(LedgerError::IncorrectDeposit));
    let over = contract.book_room(room_id.clone(), s("2030-01-01"), s("bob"), 11);
    assert_eq!(over.err(), Some(LedgerError::IncorrectDeposit));

    assert_eq!(contract.get_available_rooms(s("2030-01-01")).len(), 1);
    assert_eq!(contract.get_booking_info_for_guest(s("bob")).len(), 0);
    assert_eq!(contract.get_booking_info_for_owner(s("alice")).len(), 0);
}

#[test]
fn check_out_removes_one_booking_then_the_guest() {
    let mut contract = Contract::default();
    let room_id = register(&mut contract, "alice", "R1", 10);
    assert!(contract.book_room(room_id.clone(), s("2030-01-01"), s("bob"), 10).is_ok());
    assert!(contract.book_room(room_id.clone(), s("2030-01-02"), s("bob"), 10).is_ok());

    assert_eq!(contract.change_status_to_available(room_id.clone(), s("2030-01-01"), s("bob")), Ok(()));
    let left = contract.get_booking_info_for_guest(s("bob"));
    assert_eq!(left.len(), 1);
    assert_eq!(left[0].check_in_date, "2030-01-02");
    let rows = contract.get_booking_info_for_owner(s("alice"));
    assert_eq!(rows.len(), 1);
    assert_eq!(rows[0].check_in_date, "2030-01-02");
    assert_eq!(contract.get_available_rooms(s("2030-01-01")).len(), 1);

    assert_eq!(contract.change_status_to_available(room_id.clone(), s("2030-01-02"), s("bob")), Ok(()));
    assert_eq!(contract.get_booking_info_for_guest(s("bob")).len(), 0);
    assert_eq!(contract.get_booking_info_for_owner(s("alice")).len(), 0);

    let twice = contract.change_status_to_available(room_id, s("2030-01-02"), s("bob"));
    assert_eq!(twice, Err(LedgerError::DateNotBooked));
}

#[test]
fn availability_flag_ignores_bookings_of_other_dates() {
    let mut contract = Contract::default();
    let room_id = register(&mut contract, "alice", "R1", 10);
    assert_eq!(contract.is_available(room_id.clone()), Ok(true));

    assert!(contract.book_room(room_id.clone(), s("2030-01-05"), s("bob"), 10).is_ok());
    assert_eq!(contract.is_available(room_id.clone()), Ok(true));

    assert_eq!(contract.change_status_to_stay(room_id.clone(), s("2030-01-05")), Ok(()));
    assert!(contract.book_room(room_id.clone(), s("2030-01-09"), s("carol"), 10).is_ok());
    assert_eq!(contract.is_available(room_id), Ok(false));
}

#[test]
fn check_in_does_not_require_a_booking() {
    let mut contract = Contract::default();
    let room_id = register(&mut contract, "alice", "R1", 10);
    assert_eq!(contract.change_status_to_stay(room_id.clone(), s("2030-03-03")), Ok(()));
    assert_eq!(contract.is_available(room_id.clone()), Ok(false));
    let registered = contract.get_rooms_registered_by_owner(s("alice"));
    assert_eq!(registered[0].status, UsageStatus::Stay { check_in_date: s("2030-03-03") });
    assert_eq!(contract.get_booking_info_for_owner(s("alice")).len(), 0);
}

#[test]
fn owner_rows_show_stay_only_for_the_current_date() {
    let mut contract = Contract::default();
    let room_id = register(&mut contract, "alice", "R1", 10);
    assert!(contract.book_room(room_id.clone(), s("2030-01-01"), s("bob"), 10).is_ok());
    assert!(contract.book_room(room_id.clone(), s("2030-01-02"), s("carol"), 10).is_ok());
    assert_eq!(contract.change_status_to_stay(room_id.clone(), s("2030-01-02")), Ok(()));

    let rows = contract.get_booking_info_for_owner(s("alice"));
    assert_eq!(rows.len(), 2);
    assert_eq!(rows[0].check_in_date, "2030-01-01");
    assert_eq!(rows[0].status, UsageStatus::Available);
    assert_eq!(rows[1].check_in_date, "2030-01-02");
    assert_eq!(rows[1].status, UsageStatus::Stay { check_in_date: s("2030-01-02") });
    assert_eq!(rows[1].name, "R1");
    assert_eq!(rows[1].room_id, "aliceR1");
}

#[test]
fn registered_rooms_are_listed_per_owner_in_order() {
    let mut contract = Contract::default();
    register(&mut contract, "alice", "R1", 10);
    register(&mut contract, "dave", "D1", 30);
    register(&mut contract, "alice", "R2", 20);

    let alice = contract.get_rooms_registered_by_owner(s("alice"));
    assert_eq!(alice.len(), 2);
    assert_eq!(alice[0].name, "R1");
    assert_eq!(alice[0].price, 10);
    assert_eq!(alice[1].name, "R2");
    assert_eq!(alice[1].beds, 2);
    assert_eq!(alice[1].location, "Kyoto");
    assert_eq!(alice[1].status, UsageStatus::Available);
    let dave = contract.get_rooms_registered_by_owner(s("dave"));
    assert_eq!(dave.len(), 1);
    assert_eq!(dave[0].name, "D1");

    let available = contract.get_available_rooms(s("2030-01-01"));
    let ids: Vec<String> = available.iter().map(|r| r.room_id.clone()).collect();
    assert_eq!(ids, vec![s("aliceR1"), s("daveD1"), s("aliceR2")]);
    assert_eq!(available[1].owner_id, "dave");
    assert_eq!(available[1].price, 30);
}

#[test]
fn duplicate_room_is_refused() {
    let mut contract = Contract::default();
    register(&mut contract, "alice", "R1", 10);
    let again = contract.add_room_to_owner(s("alice"), s("R1"), s("x"), 9, s("y"), s("z"), 99);
    assert_eq!(again, Err(LedgerError::DuplicateRoom));
    let rooms = contract.get_rooms_registered_by_owner(s("alice"));
    assert_eq!(rooms.len(), 1);
    assert_eq!(rooms[0].price, 10);
}

#[test]
fn room_exists_follows_registration() {
    let mut contract = Contract::default();
    assert!(!contract.room_exists(s("alice"), s("R1")));
    register(&mut contract, "alice", "R1", 10);
    assert!(contract.room_exists(s("alice"), s("R1")));
    assert!(!contract.room_exists(s("alice"), s("R2")));
    assert!(!contract.room_exists(s("bob"), s("R1")));
}

#[test]
fn unknown_room_is_reported() {
    let mut contract = Contract::default();
    register(&mut contract, "alice", "R1", 10);
    assert_eq!(contract.is_available(s("nobody")), Err(LedgerError::RoomNotFound));
    let booked = contract.book_room(s("nobody"), s("2030-01-01"), s("bob"), 10);
    assert_eq!(booked.err(), Some(LedgerError::RoomNotFound));
    assert_eq!(contract.change_status_to_stay(s("nobody"), s("2030-01-01")), Err(LedgerError::RoomNotFound));
    assert_eq!(
        contract.change_status_to_available(s("nobody"), s("2030-01-01"), s("bob")),
        Err(LedgerError::RoomNotFound)
    );
}

#[test]
fn guest_cannot_hold_two_rooms_on_one_date() {
    let mut contract = Contract::default();
    let r1 = register(&mut contract, "alice", "R1", 10);
    let r2 = register(&mut contract, "alice", "R2", 10);
    assert!(contract.book_room(r1, s("2030-01-01"), s("bob"), 10).is_ok());
    let second = contract.book_room(r2.clone(), s("2030-01-01"), s("bob"), 10);
    assert_eq!(second.err(), Some(LedgerError::DuplicateBooking));
    assert_eq!(contract.get_available_rooms(s("2030-01-01")).len(), 1);
    assert_eq!(contract.get_booking_info_for_guest(s("bob")).len(), 1);
}

#[test]
fn check_out_by_another_guest_is_refused() {
    let mut contract = Contract::default();
    let room_id = register(&mut contract, "alice", "R1", 10);
    assert!(contract.book_room(room_id.clone(), s("2030-01-01"), s("bob"), 10).is_ok());
    assert_eq!(contract.change_status_to_stay(room_id.clone(), s("2030-01-01")), Ok(()));

    let wrong = contract.change_status_to_available(room_id.clone(), s("2030-01-01"), s("carol"));
    assert_eq!(wrong, Err(LedgerError::DateNotBooked));
    let unbooked = contract.change_status_to_available(room_id.clone(), s("2030-02-02"), s("bob"));
    assert_eq!(unbooked, Err(LedgerError::DateNotBooked));
    assert_eq!(contract.is_available(room_id), Ok(false));
    assert_eq!(contract.get_booking_info_for_guest(s("bob")).len(), 1);
}

#[test]
fn largest_price_is_accepted() {
    let mut contract = Contract::default();
    let room_id = register(&mut contract, "alice", "R1", u128::MAX);
    let receipt = contract.book_room(room_id, s("2030-01-01"), s("bob"), u128::MAX).unwrap();
    assert_eq!(receipt.amount, u128::MAX);
}

#[test]
fn empty_names_still_form_ids() {
    let mut contract = Contract::default();
    let room_id = register(&mut contract, "", "", 1);
    assert_eq!(room_id, "");
    assert_eq!(contract.is_available(s("")), Ok(true));
    assert_eq!(contract.get_rooms_registered_by_owner(s("")).len(), 1);
}

#[test]
fn joined_ids_that_collide_are_refused() {
    let mut contract = Contract::default();
    assert_eq!(register(&mut contract, "ab", "c", 10), "abc");
    let other = contract.add_room_to_owner(s("a"), s("bc"), s("i"), 1, s("d"), s("l"), 5);
    assert_eq!(other, Err(LedgerError::DuplicateRoom));
    assert_eq!(contract.get_rooms_registered_by_owner(s("a")).len(), 0);
}
