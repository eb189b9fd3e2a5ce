//! Properties of the ledger's operations, proved over the model.

use vstd::prelude::*;

use crate::keyed::{as_map, has_key};
use crate::model::{
    book, booking_check, check_out, guest_rows, lemma_book, lemma_check_out,
    lemma_guest_entries, lemma_register, register_room, release_check, remaining_entries,
    room_id_of, LedgerView,
};
use crate::room::LedgerError;

verus! {

/// In a consistent ledger a room is booked by a guest for a date exactly when
/// the guest index records that room for that guest and date.
pub proof fn law_index_symmetry(m: LedgerView, room: Seq<char>, date: Seq<char>, guest: Seq<char>)
    requires
        m.consistent(),
    ensures
        m.booked_guest(room, date) == Some(guest) <==> m.guest_room(guest, date) == Some(room),
{
    if m.booked_guest(room, date) == Some(guest) {
        assert(m.booked_guest(room, date) is Some);
    }
    if m.guest_room(guest, date) == Some(room) {
        assert(m.guest_room(guest, date) is Some);
    }
}

/// Once a room is booked for a date, booking it again for that date with the
/// same deposit is refused with `DateAlreadyBooked`, whoever asks, and the first
/// booking stands.
pub proof fn law_second_booking_refused(
    m: LedgerView,
    room: Seq<char>,
    date: Seq<char>,
    first: Seq<char>,
    second: Seq<char>,
    deposit: u128,
)
    requires
        m.consistent(),
        booking_check(m, room, date, first, deposit) is None,
    ensures
        booking_check(book(m, room, date, first), room, date, second, deposit) == Some(
            LedgerError::DateAlreadyBooked,
        ),
        book(m, room, date, first).booked_guest(room, date) == Some(first),
        book(m, room, date, first).guest_room(first, date) == Some(room),
{
    lemma_book(m, room, date, first, deposit);
}

/// A booking whose deposit differs from the room's price is refused with
/// `IncorrectDeposit`.
pub proof fn law_incorrect_deposit_refused(
    m: LedgerView,
    room: Seq<char>,
    date: Seq<char>,
    guest: Seq<char>,
    deposit: u128,
)
    requires
        m.room_map().contains_key(room),
        deposit != m.room_map()[room].price,
    ensures
        booking_check(m, room, date, guest, deposit) == Some(LedgerError::IncorrectDeposit),
{
}

/// Checking out drops the booking from the room and from the guest index; a
/// guest that held no other booking leaves the guest index and sees no rows.
pub proof fn law_check_out_clears(m: LedgerView, room: Seq<char>, date: Seq<char>, guest: Seq<char>)
    requires
        m.consistent(),
        release_check(m, room, date, guest) is None,
    ensures
        check_out(m, room, date, guest).booked_guest(room, date) is None,
        check_out(m, room, date, guest).guest_room(guest, date) is None,
        check_out(m, room, date, guest).room_bookings(room) == m.room_bookings(room).remove(date),
        check_out(m, room, date, guest).guest_bookings(guest) == m.guest_bookings(guest).remove(
            date,
        ),
        m.guest_bookings(guest).dom() == set![date] ==> {
            &&& !check_out(m, room, date, guest).guest_map().contains_key(guest)
            &&& guest_rows(check_out(m, room, date, guest), guest).len() == 0
        },
{
    lemma_check_out(m, room, date, guest);
    let n = check_out(m, room, date, guest);
    let rest = remaining_entries(m, guest, date);
    if m.guest_bookings(guest).dom() == set![date] {
        if rest.len() > 0 {
            assert(has_key(rest, rest[0].0));
            lemma_guest_entries(m, guest);
            assert(as_map(rest).contains_key(rest[0].0));
            assert(m.guest_bookings(guest).remove(date).dom().contains(rest[0].0));
        }
        assert(!n.guest_map().contains_key(guest));
        assert(n.guest_entries(guest).len() == 0);
    }
}

/// A freshly registered room has status `Available`.
pub proof fn law_fresh_room_available(
    m: LedgerView,
    owner: Seq<char>,
    name: Seq<char>,
    image: Seq<char>,
    beds: u8,
    description: Seq<char>,
    location: Seq<char>,
    price: u128,
)
    requires
        m.consistent(),
        !m.room_map().contains_key(room_id_of(owner, name)),
    ensures
        register_room(m, owner, name, image, beds, description, location, price).room_map().contains_key(
            room_id_of(owner, name),
        ),
        register_room(m, owner, name, image, beds, description, location, price).room_map()[room_id_of(
            owner,
            name,
        )].status is Available,
{
    lemma_register(m, owner, name, image, beds, description, location, price);
}

/// Booking a date on a room leaves the status of every room as it was.
pub proof fn law_booking_keeps_status(
    m: LedgerView,
    room: Seq<char>,
    date: Seq<char>,
    guest: Seq<char>,
    deposit: u128,
    other: Seq<char>,
)
    requires
        m.consistent(),
        booking_check(m, room, date, guest, deposit) is None,
        m.room_map().contains_key(other),
    ensures
        book(m, room, date, guest).room_map().contains_key(other),
        book(m, room, date, guest).room_map()[other].status == m.room_map()[other].status,
{
    lemma_book(m, room, date, guest, deposit);
}

} // verus!
