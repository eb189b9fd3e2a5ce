//! The ledger and its operations.

use vstd::prelude::*;
use vstd::string::StringExecFns;

use crate::keyed::{has_key, keys_unique, lemma_key_pos, KeyedVec};
use crate::model::{
    available_rows, available_view, book, booking_check, check_in, check_out, guest_rows,
    guests_after_booking, guests_after_release,
    lemma_book, lemma_check_in, lemma_check_out, lemma_register, lemma_take_put, owner_booking_rows,
    register_room, registered_view, release_check, room_booking_rows, room_id_of, LedgerView,
};
use crate::room::{
    AvailableRoom, BookedRoom, BookedRoomView, BookingReceipt, GuestBookedRoom, LedgerError,
    ResigteredRoom, Room, UsageStatus,
};

verus! {

/// The ledger: a room registry with its owner and guest indexes.
pub struct Contract {
    rooms_per_owner: KeyedVec<Vec<String>>,
    rooms_by_id: KeyedVec<Room>,
    bookings_per_guest: KeyedVec<KeyedVec<String>>,
}

impl View for Contract {
    type V = LedgerView;

    closed spec fn view(&self) -> LedgerView {
        LedgerView {
            rooms: self.rooms_by_id@,
            owners: self.rooms_per_owner@,
            guests: self.bookings_per_guest@,
        }
    }
}

impl Default for Contract {
    fn default() -> (r: Contract)
        ensures
            r.wf(),
            r@.rooms.len() == 0,
            r@.owners.len() == 0,
            r@.guests.len() == 0,
    {
        Contract::new()
    }
}

impl Contract {
    /// The ledger is well formed: its indexes agree.
    pub open spec fn wf(&self) -> bool {
        self@.consistent()
    }

    /// An empty ledger.
    pub fn new() -> (r: Contract)
        ensures
            r.wf(),
            r@.rooms.len() == 0,
            r@.owners.len() == 0,
            r@.guests.len() == 0,
    {
        let r = Contract {
            rooms_per_owner: KeyedVec::new(),
            rooms_by_id: KeyedVec::new(),
            bookings_per_guest: KeyedVec::new(),
        };
        assert forall|g: Seq<char>, d: Seq<char>| #[trigger] r@.guest_room(g, d) is None by {
            assert(!has_key(r@.guests, g));
        }
        assert forall|rm: Seq<char>, d: Seq<char>| #[trigger] r@.booked_guest(rm, d) is None by {
            assert(!has_key(r@.rooms, rm));
        }
        assert forall|o: Seq<char>| #[trigger] r@.owned_rooms(o).len() == 0 by {
            assert(!has_key(r@.owners, o));
        }
        r
    }

    /// Registers a room for `owner_id` under the id `owner_id ++ name`, with no
    /// bookings and status `Available`, and lists it under its owner. A room
    /// with that id is never replaced: the call fails with `DuplicateRoom`.
    pub fn add_room_to_owner(
        &mut self,
        owner_id: String,
        name: String,
        image: String,
        beds: u8,
        description: String,
        location: String,
        price: u128,
    ) -> (r: Result<String, LedgerError>)
        requires
            old(self).wf(),
        ensures
            final(self).wf(),
            r is Err <==> old(self)@.room_map().contains_key(room_id_of(owner_id@, name@)),
            r matches Err(e) ==> e == LedgerError::DuplicateRoom && final(self)@ == old(self)@,
            r matches Ok(id) ==> id@ == room_id_of(owner_id@, name@) && final(self)@
                == register_room(
                old(self)@,
                owner_id@,
                name@,
                image@,
                beds,
                description@,
                location@,
                price,
            ),
    {
        let room_id = owner_id.clone().concat(name.as_str());
        if self.rooms_by_id.find(&room_id).is_some() {
            return Err(LedgerError::DuplicateRoom);
        }
        let ghost before = self@;
        let ghost owner = owner_id@;
        let ghost target = register_room(
            before,
            owner_id@,
            name@,
            image@,
            beds,
            description@,
            location@,
            price,
        );
        let new_room = Room {
            owner_id: owner_id.clone(),
            name,
            image,
            beds,
            description,
            location,
            price,
            status: UsageStatus::Available,
            booked_info: KeyedVec::new(),
        };
        self.rooms_by_id.push(room_id.clone(), new_room);
        match self.rooms_per_owner.find(&owner_id) {
            Some(i) => {
                let (key, mut rooms) = self.rooms_per_owner.take(i);
                let ghost listed = rooms.deep_view();
                rooms.push(room_id.clone());
                assert(rooms.deep_view() =~= listed.push(room_id@));
                self.rooms_per_owner.put(i, key, rooms);
                proof {
                    lemma_key_pos(before.owners, i as int);
                    lemma_take_put(before.owners, i as int, listed.push(room_id@));
                }
            },
            None => {
                let mut rooms: Vec<String> = Vec::new();
                rooms.push(room_id.clone());
                assert(rooms.deep_view() =~= before.owned_rooms(owner_id@).push(room_id@));
                self.rooms_per_owner.push(owner_id, rooms);
            },
        }
        assert(self@ == target);
        proof {
            lemma_register(before, owner, name@, image@, beds, description@, location@, price);
        }
        Ok(room_id)
    }

    /// Whether `owner_id` has registered a room named `room_name`.
    pub fn room_exists(&self, owner_id: String, room_name: String) -> (r: bool)
        ensures
            r == self@.room_map().contains_key(room_id_of(owner_id@, room_name@)),
    {
        let room_id = owner_id.concat(room_name.as_str());
        self.rooms_by_id.find(&room_id).is_some()
    }

    /// Whether the room's status is `Available`; its bookings are not consulted.
    pub fn is_available(&self, room_id: String) -> (r: Result<bool, LedgerError>)
        ensures
            r is Err <==> !self@.room_map().contains_key(room_id@),
            r matches Err(e) ==> e == LedgerError::RoomNotFound,
            r matches Ok(b) ==> b == (self@.room_map()[room_id@].status is Available),
    {
        match self.rooms_by_id.get(&room_id) {
            Some(room) => Ok(room.status.is_available()),
            None => Err(LedgerError::RoomNotFound),
        }
    }

    /// Books room `room_id` for `check_in_date` on behalf of `guest_id`, who
    /// attached `attached_deposit`. The checks of `booking_check` come in order
    /// and the first that fails decides the error: the room exists, the deposit
    /// equals its price exactly, the date is free on the room, and the guest
    /// holds no booking for that date. On success the booking is recorded on the
    /// room and in the guest index, and the receipt names the owner to be paid
    /// the deposit: the ledger is committed before that payment is made.
    pub fn book_room(
        &mut self,
        room_id: String,
        check_in_date: String,
        guest_id: String,
        attached_deposit: u128,
    ) -> (r: Result<BookingReceipt, LedgerError>)
        requires
            old(self).wf(),
        ensures
            final(self).wf(),
            (match booking_check(old(self)@, room_id@, check_in_date@, guest_id@, attached_deposit) {
                Some(e) => r matches Err(x) && x == e && final(self)@ == old(self)@,
                None => r matches Ok(receipt) && {
                    &&& receipt.room_id@ == room_id@
                    &&& receipt.check_in_date@ == check_in_date@
                    &&& receipt.guest_id@ == guest_id@
                    &&& receipt.owner_id@ == old(self)@.room_map()[room_id@].owner_id
                    &&& receipt.amount == attached_deposit
                    &&& final(self)@ == book(old(self)@, room_id@, check_in_date@, guest_id@)
                },
            }),
    {
        let ghost before = self@;
        let i = match self.rooms_by_id.find(&room_id) {
            Some(i) => i,
            None => {
                return Err(LedgerError::RoomNotFound);
            },
        };
        proof {
            lemma_key_pos(before.rooms, i as int);
        }
        let room = self.rooms_by_id.value_at(i);
        if attached_deposit != room.price {
            return Err(LedgerError::IncorrectDeposit);
        }
        if room.booked_info.find(&check_in_date).is_some() {
            return Err(LedgerError::DateAlreadyBooked);
        }
        let guest_pos = self.bookings_per_guest.find(&guest_id);
        match guest_pos {
            Some(j) => {
                proof {
                    lemma_key_pos(before.guests, j as int);
                }
                if self.bookings_per_guest.value_at(j).find(&check_in_date).is_some() {
                    return Err(LedgerError::DuplicateBooking);
                }
            },
            None => {},
        }
        let ghost target = book(before, room_id@, check_in_date@, guest_id@);
        let (key, mut room) = self.rooms_by_id.take(i);
        let owner_id = room.owner_id.clone();
        room.booked_info.push(check_in_date.clone(), guest_id.clone());
        let ghost booked = room@;
        self.rooms_by_id.put(i, key, room);
        proof {
            lemma_take_put(before.rooms, i as int, booked);
        }
        self.add_booking_to_guest(guest_id.clone(), room_id.clone(), check_in_date.clone());
        assert(self@ == target);
        proof {
            lemma_book(before, room_id@, check_in_date@, guest_id@, attached_deposit);
        }
        Ok(
            BookingReceipt {
                room_id,
                check_in_date,
                guest_id,
                owner_id,
                amount: attached_deposit,
            },
        )
    }

    /// Marks room `room_id` as occupied for `check_in_date`. The date is not
    /// required to be booked: the status is a display flag with no bearing on
    /// the bookings.
    pub fn change_status_to_stay(&mut self, room_id: String, check_in_date: String) -> (r: Result<
        (),
        LedgerError,
    >)
        requires
            old(self).wf(),
        ensures
            final(self).wf(),
            r is Err <==> !old(self)@.room_map().contains_key(room_id@),
            r matches Err(e) ==> e == LedgerError::RoomNotFound && final(self)@ == old(self)@,
            r is Ok ==> final(self)@ == check_in(old(self)@, room_id@, check_in_date@),
    {
        let ghost before = self@;
        let i = match self.rooms_by_id.find(&room_id) {
            Some(i) => i,
            None => {
                return Err(LedgerError::RoomNotFound);
            },
        };
        proof {
            lemma_key_pos(before.rooms, i as int);
        }
        let ghost target = check_in(before, room_id@, check_in_date@);
        let (key, mut room) = self.rooms_by_id.take(i);
        room.status = UsageStatus::Stay { check_in_date };
        let ghost staying = room@;
        self.rooms_by_id.put(i, key, room);
        proof {
            lemma_take_put(before.rooms, i as int, staying);
        }
        assert(self@ == target);
        proof {
            lemma_check_in(before, room_id@, staying.status->check_in_date);
        }
        Ok(())
    }

    /// Checks `guest_id` out of room `room_id` for `check_in_date`: the booking
    /// is dropped from the room and from the guest index (with the guest itself
    /// once it holds no booking), and the room's status becomes `Available`.
    /// Fails with `DateNotBooked` unless the room is booked for that date by
    /// that guest.
    pub fn change_status_to_available(
        &mut self,
        room_id: String,
        check_in_date: String,
        guest_id: String,
    ) -> (r: Result<(), LedgerError>)
        requires
            old(self).wf(),
        ensures
            final(self).wf(),
            (match release_check(old(self)@, room_id@, check_in_date@, guest_id@) {
                Some(e) => r matches Err(x) && x == e && final(self)@ == old(self)@,
                None => r is Ok && final(self)@ == check_out(
                    old(self)@,
                    room_id@,
                    check_in_date@,
                    guest_id@,
                ),
            }),
    {
        let ghost before = self@;
        let i = match self.rooms_by_id.find(&room_id) {
            Some(i) => i,
            None => {
                return Err(LedgerError::RoomNotFound);
            },
        };
        proof {
            lemma_key_pos(before.rooms, i as int);
        }
        let room = self.rooms_by_id.value_at(i);
        let d = match room.booked_info.find(&check_in_date) {
            Some(d) => d,
            None => {
                return Err(LedgerError::DateNotBooked);
            },
        };
        proof {
            lemma_key_pos(room.booked_info@, d as int);
        }
        if *room.booked_info.value_at(d) != guest_id {
            return Err(LedgerError::DateNotBooked);
        }
        assert(before.booked_guest(room_id@, check_in_date@) == Some(guest_id@));
        assert(before.guest_room(guest_id@, check_in_date@) == Some(room_id@));
        match self.remove_booking_from_guest(guest_id.clone(), check_in_date.clone()) {
            Ok(()) => {},
            Err(e) => {
                return Err(e);
            },
        }
        let ghost target = check_out(before, room_id@, check_in_date@, guest_id@);
        let (key, mut room) = self.rooms_by_id.take(i);
        let _ = room.booked_info.take(d);
        room.status = UsageStatus::Available;
        let ghost released = room@;
        self.rooms_by_id.put(i, key, room);
        proof {
            lemma_take_put(before.rooms, i as int, released);
        }
        assert(self@ == target);
        proof {
            lemma_check_out(before, room_id@, check_in_date@, guest_id@);
        }
        Ok(())
    }

    /// Records in the guest index that `guest_id` holds `room_id` for
    /// `check_in_date`.
    fn add_booking_to_guest(&mut self, guest_id: String, room_id: String, check_in_date: String)
        requires
            !old(self)@.guest_bookings(guest_id@).contains_key(check_in_date@),
        ensures
            final(self)@ == (LedgerView {
                guests: guests_after_booking(old(self)@, guest_id@, check_in_date@, room_id@),
                ..old(self)@
            }),
    {
        let ghost before = self@;
        match self.bookings_per_guest.find(&guest_id) {
            Some(j) => {
                proof {
                    lemma_key_pos(before.guests, j as int);
                }
                let (guest_key, mut dates) = self.bookings_per_guest.take(j);
                dates.push(check_in_date, room_id);
                let ghost entries = dates@;
                self.bookings_per_guest.put(j, guest_key, dates);
                proof {
                    lemma_take_put(before.guests, j as int, entries);
                }
            },
            None => {
                let mut dates: KeyedVec<String> = KeyedVec::new();
                dates.push(check_in_date, room_id);
                let ghost entries = dates@;
                self.bookings_per_guest.push(guest_id, dates);
                assert(entries =~= before.guest_entries(guest_id@).push((check_in_date@, room_id@)));
            },
        }
    }

    /// Drops the booking of `guest_id` for `check_in_date` from the guest
    /// index, and the guest with it once it holds no booking.
    fn remove_booking_from_guest(&mut self, guest_id: String, check_in_date: String) -> (r: Result<
        (),
        LedgerError,
    >)
        ensures
            !old(self)@.guest_map().contains_key(guest_id@) ==> r == Err::<(), LedgerError>(
                LedgerError::GuestNotFound,
            ) && final(self)@ == old(self)@,
            old(self)@.guest_map().contains_key(guest_id@) && !old(self)@.guest_bookings(
                guest_id@,
            ).contains_key(check_in_date@) ==> r == Err::<(), LedgerError>(
                LedgerError::BookingNotFound,
            ) && final(self)@ == old(self)@,
            old(self)@.guest_bookings(guest_id@).contains_key(check_in_date@) ==> r is Ok
                && final(self)@ == (LedgerView {
                guests: guests_after_release(old(self)@, guest_id@, check_in_date@),
                ..old(self)@
            }),
    {
        let ghost before = self@;
        let j = match self.bookings_per_guest.find(&guest_id) {
            Some(j) => j,
            None => {
                return Err(LedgerError::GuestNotFound);
            },
        };
        proof {
            lemma_key_pos(before.guests, j as int);
        }
        let e = match self.bookings_per_guest.value_at(j).find(&check_in_date) {
            Some(e) => e,
            None => {
                return Err(LedgerError::BookingNotFound);
            },
        };
        let (guest_key, mut dates) = self.bookings_per_guest.take(j);
        let _ = dates.take(e);
        let ghost rest = dates@;
        if !dates.is_empty() {
            self.bookings_per_guest.put(j, guest_key, dates);
            proof {
                lemma_take_put(before.guests, j as int, rest);
            }
        }
        Ok(())
    }

    /// The rooms with no booking for `check_in_date`, in registry order.
    pub fn get_available_rooms(&self, check_in_date: String) -> (r: Vec<AvailableRoom>)
        ensures
            r.deep_view() == available_rows(self@.rooms, check_in_date@),
    {
        let mut out: Vec<AvailableRoom> = Vec::new();
        let n = self.rooms_by_id.len();
        let mut i: usize = 0;
        while i < n
            invariant
                n == self@.rooms.len(),
                i <= n,
                out.deep_view() == available_rows(self@.rooms.take(i as int), check_in_date@),
            decreases n - i,
        {
            let ghost prev = out.deep_view();
            let id = self.rooms_by_id.key_at(i);
            let room = self.rooms_by_id.value_at(i);
            if room.booked_info.find(&check_in_date).is_none() {
                out.push(
                    AvailableRoom {
                        room_id: id.clone(),
                        owner_id: room.owner_id.clone(),
                        name: room.name.clone(),
                        image: room.image.clone(),
                        beds: room.beds,
                        description: room.description.clone(),
                        location: room.location.clone(),
                        price: room.price,
                    },
                );
                assert(out.deep_view() =~= prev.push(available_view(id@, room@)));
            }
            assert(self@.rooms.take(i + 1).drop_last() =~= self@.rooms.take(i as int));
            i = i + 1;
        }
        assert(self@.rooms.take(n as int) =~= self@.rooms);
        out
    }

    /// The rooms that `owner_id` registered, in the order of registration; empty
    /// for an owner with none.
    pub fn get_rooms_registered_by_owner(&self, owner_id: String) -> (r: Vec<ResigteredRoom>)
        requires
            self.wf(),
        ensures
            r.deep_view() == self@.owned_rooms(owner_id@).map_values(
                |id: Seq<char>| registered_view(self@.room_map()[id]),
            ),
    {
        let mut out: Vec<ResigteredRoom> = Vec::new();
        let ghost owned = self@.owned_rooms(owner_id@);
        match self.rooms_per_owner.get(&owner_id) {
            Some(ids) => {
                let n = ids.len();
                let mut k: usize = 0;
                while k < n
                    invariant
                        self.wf(),
                        owned == self@.owned_rooms(owner_id@),
                        ids.deep_view() == owned,
                        n == owned.len(),
                        k <= n,
                        out.deep_view() == owned.take(k as int).map_values(
                            |id: Seq<char>| registered_view(self@.room_map()[id]),
                        ),
                    decreases n - k,
                {
                    let ghost prev = out.deep_view();
                    let id = &ids[k];
                    assert(id@ == owned[k as int]);
                    match self.rooms_by_id.get(id) {
                        Some(room) => {
                            out.push(
                                ResigteredRoom {
                                    name: room.name.clone(),
                                    image: room.image.clone(),
                                    beds: room.beds,
                                    description: room.description.clone(),
                                    location: room.location.clone(),
                                    price: room.price,
                                    status: room.status.duplicate(),
                                },
                            );
                            assert(room@ == self@.room_map()[id@]);
                            assert(out.deep_view() =~= prev.push(registered_view(room@)));
                            assert(out.deep_view() =~= owned.take(k + 1).map_values(
                                |id: Seq<char>| registered_view(self@.room_map()[id]),
                            ));
                        },
                        None => {
                            assert(self@.room_map().contains_key(owned[k as int]));
                        },
                    }
                    k = k + 1;
                }
                assert(owned.take(n as int) =~= owned);
            },
            None => {
                assert(out.deep_view() =~= owned.map_values(
                    |id: Seq<char>| registered_view(self@.room_map()[id]),
                ));
            },
        }
        out
    }

    /// One row per booking of each room that `owner_id` registered, room after
    /// room in the order of registration and, within a room, in booking order.
    pub fn get_booking_info_for_owner(&self, owner_id: String) -> (r: Vec<BookedRoom>)
        requires
            self.wf(),
        ensures
            r.deep_view() == owner_booking_rows(self@, self@.owned_rooms(owner_id@)),
    {
        let mut out: Vec<BookedRoom> = Vec::new();
        let ghost owned = self@.owned_rooms(owner_id@);
        match self.rooms_per_owner.get(&owner_id) {
            Some(ids) => {
                let n = ids.len();
                let mut k: usize = 0;
                while k < n
                    invariant
                        self.wf(),
                        owned == self@.owned_rooms(owner_id@),
                        ids.deep_view() == owned,
                        n == owned.len(),
                        k <= n,
                        out.deep_view() == owner_booking_rows(self@, owned.take(k as int)),
                    decreases n - k,
                {
                    let room_id = &ids[k];
                    assert(room_id@ == owned[k as int]);
                    assert(owned.take(k + 1).drop_last() =~= owned.take(k as int));
                    match self.rooms_by_id.get(room_id) {
                        Some(room) => {
                            let ghost start = out.deep_view();
                            let ghost rows = room_booking_rows(room_id@, room@);
                            let m = room.booked_info.len();
                            let mut j: usize = 0;
                            while j < m
                                invariant
                                    m == room@.booked_info.len(),
                                    rows == room_booking_rows(room_id@, room@),
                                    j <= m,
                                    out.deep_view() == start + rows.take(j as int),
                                decreases m - j,
                            {
                                let ghost prev = out.deep_view();
                                let date = room.booked_info.key_at(j);
                                let guest = room.booked_info.value_at(j);
                                let status = match &room.status {
                                    UsageStatus::Stay { check_in_date } => {
                                        if *check_in_date == *date {
                                            UsageStatus::Stay { check_in_date: check_in_date.clone() }
                                        } else {
                                            UsageStatus::Available
                                        }
                                    },
                                    UsageStatus::Available => UsageStatus::Available,
                                };
                                out.push(
                                    BookedRoom {
                                        room_id: room_id.clone(),
                                        name: room.name.clone(),
                                        check_in_date: date.clone(),
                                        guest_id: guest.clone(),
                                        status,
                                    },
                                );
                                assert(out.deep_view() =~= prev.push(rows[j as int]));
                                assert(start + rows.take(j + 1) =~= (start + rows.take(j as int)).push(rows[j as int]));
                                j = j + 1;
                            }
                            assert(rows.take(m as int) =~= rows);
                        },
                        None => {
                            assert(self@.room_map().contains_key(owned[k as int]));
                        },
                    }
                    k = k + 1;
                }
                assert(owned.take(n as int) =~= owned);
            },
            None => {
                assert(out.deep_view() =~= Seq::<BookedRoomView>::empty());
            },
        }
        out
    }

    /// One row per booking that `guest_id` holds, in booking order; empty for a
    /// guest with none.
    pub fn get_booking_info_for_guest(&self, guest_id: String) -> (r: Vec<GuestBookedRoom>)
        requires
            self.wf(),
        ensures
            r.deep_view() == guest_rows(self@, guest_id@),
    {
        let mut out: Vec<GuestBookedRoom> = Vec::new();
        let ghost rows = guest_rows(self@, guest_id@);
        match self.bookings_per_guest.get(&guest_id) {
            Some(dates) => {
                let n = dates.len();
                let mut j: usize = 0;
                while j < n
                    invariant
                        self.wf(),
                        dates@ == self@.guest_entries(guest_id@),
                        keys_unique(dates@),
                        rows == guest_rows(self@, guest_id@),
                        n == dates@.len(),
                        j <= n,
                        out.deep_view() == rows.take(j as int),
                    decreases n - j,
                {
                    let ghost prev = out.deep_view();
                    let date = dates.key_at(j);
                    let room_id = dates.value_at(j);
                    proof {
                        lemma_key_pos(dates@, j as int);
                        assert(self@.guest_room(guest_id@, date@) == Some(room_id@));
                        assert(self@.booked_guest(room_id@, date@) is Some);
                    }
                    match self.rooms_by_id.get(room_id) {
                        Some(room) => {
                            out.push(
                                GuestBookedRoom {
                                    owner_id: room.owner_id.clone(),
                                    room_name: room.name.clone(),
                                    check_in_date: date.clone(),
                                },
                            );
                            assert(out.deep_view() =~= prev.push(rows[j as int]));
                        },
                        None => {},
                    }
                    assert(rows.take(j + 1) =~= rows.take(j as int).push(rows[j as int]));
                    j = j + 1;
                }
                assert(rows.take(n as int) =~= rows);
            },
            None => {
                assert(out.deep_view() =~= rows);
            },
        }
        out
    }
}

} // verus!
