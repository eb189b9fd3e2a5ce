//! The ledger as mathematical values: its three indexes, the agreement among
//! them, what each operation makes of them, and the rows each listing returns.

use vstd::prelude::*;

use crate::keyed::{
    as_map, has_key, key_pos, keys_unique, lemma_key_pos, lemma_push, lemma_remove, lemma_remove_key,
    lemma_upsert, remove_key, upsert,
};
use crate::room::{
    AvailableRoomView, BookedRoomView, GuestBookedRoomView, LedgerError, RegisteredRoomView, RoomView,
    StatusView,
};

verus! {


/// The three indexes of the ledger, each as an ordered list of pairs.
pub struct LedgerView {
    /// Room id to room, in the order of registration.
    pub rooms: Seq<(Seq<char>, RoomView)>,
    /// Owner to the ids of the rooms it registered, in order.
    pub owners: Seq<(Seq<char>, Seq<Seq<char>>)>,
    /// Guest to its bookings, each a (date, room id) pair.
    pub guests: Seq<(Seq<char>, Seq<(Seq<char>, Seq<char>)>)>,
}

/// The id of the room that `owner` registers under `name`: the two joined with
/// no separator, so two (owner, name) pairs can share an id (`"ab"` with `"c"`,
/// `"a"` with `"bc"`); the second of them is refused as a duplicate.
pub open spec fn room_id_of(owner: Seq<char>, name: Seq<char>) -> Seq<char> {
    owner + name
}

/// A room as it stands right after registration.
pub open spec fn fresh_room(
    owner: Seq<char>,
    name: Seq<char>,
    image: Seq<char>,
    beds: u8,
    description: Seq<char>,
    location: Seq<char>,
    price: u128,
) -> RoomView {
    RoomView {
        name,
        owner_id: owner,
        image,
        beds,
        description,
        location,
        price,
        status: StatusView::Available,
        booked_info: Seq::empty(),
    }
}

impl LedgerView {
    pub open spec fn room_map(self) -> Map<Seq<char>, RoomView> {
        as_map(self.rooms)
    }

    pub open spec fn owner_map(self) -> Map<Seq<char>, Seq<Seq<char>>> {
        as_map(self.owners)
    }

    pub open spec fn guest_map(self) -> Map<Seq<char>, Seq<(Seq<char>, Seq<char>)>> {
        as_map(self.guests)
    }

    /// The ids of the rooms that `owner` registered; empty for an unknown owner.
    pub open spec fn owned_rooms(self, owner: Seq<char>) -> Seq<Seq<char>> {
        if self.owner_map().contains_key(owner) {
            self.owner_map()[owner]
        } else {
            Seq::empty()
        }
    }

    /// The bookings that the guest index holds for `guest`, date to room id;
    /// empty for an unknown guest.
    pub open spec fn guest_bookings(self, guest: Seq<char>) -> Map<Seq<char>, Seq<char>> {
        if self.guest_map().contains_key(guest) {
            as_map(self.guest_map()[guest])
        } else {
            Map::empty()
        }
    }

    /// The (date, room id) pairs that the guest index holds for `guest`, in order;
    /// empty for an unknown guest.
    pub open spec fn guest_entries(self, guest: Seq<char>) -> Seq<(Seq<char>, Seq<char>)> {
        if self.guest_map().contains_key(guest) {
            self.guest_map()[guest]
        } else {
            Seq::empty()
        }
    }

    /// The bookings of room `room`, date to guest; empty for an unknown room.
    pub open spec fn room_bookings(self, room: Seq<char>) -> Map<Seq<char>, Seq<char>> {
        if self.room_map().contains_key(room) {
            as_map(self.room_map()[room].booked_info)
        } else {
            Map::empty()
        }
    }

    /// The guest that room `room` is booked by for `date`, if any.
    pub open spec fn booked_guest(self, room: Seq<char>, date: Seq<char>) -> Option<Seq<char>> {
        if self.room_bookings(room).contains_key(date) {
            Some(self.room_bookings(room)[date])
        } else {
            None
        }
    }

    /// The room that the guest index records for `guest` on `date`, if any.
    pub open spec fn guest_room(self, guest: Seq<char>, date: Seq<char>) -> Option<Seq<char>> {
        if self.guest_bookings(guest).contains_key(date) {
            Some(self.guest_bookings(guest)[date])
        } else {
            None
        }
    }

    /// Every list of pairs in the ledger has each key once.
    pub open spec fn well_keyed(self) -> bool {
        &&& keys_unique(self.rooms)
        &&& keys_unique(self.owners)
        &&& keys_unique(self.guests)
        &&& forall|i: int| 0 <= i < self.rooms.len() ==> keys_unique(#[trigger] self.rooms[i].1.booked_info)
        &&& forall|i: int| 0 <= i < self.guests.len() ==> keys_unique(#[trigger] self.guests[i].1)
    }

    /// The indexes agree with one another.
    pub open spec fn consistent(self) -> bool {
        &&& self.well_keyed()
        // each booking of a room is mirrored in the guest index
        &&& forall|r: Seq<char>, d: Seq<char>|
            #[trigger] self.booked_guest(r, d) is Some ==> self.guest_room(
                self.booked_guest(r, d)->0,
                d,
            ) == Some(r)
        // each entry of the guest index is a booking of the room it names
        &&& forall|g: Seq<char>, d: Seq<char>|
            #[trigger] self.guest_room(g, d) is Some ==> self.booked_guest(
                self.guest_room(g, d)->0,
                d,
            ) == Some(g)
        // no guest is kept with no booking
        &&& forall|g: Seq<char>| #[trigger]
            self.guest_map().contains_key(g) ==> self.guest_map()[g].len() > 0
        // each listed room exists and belongs to the owner it is listed under
        &&& forall|o: Seq<char>, k: int|
            0 <= k < self.owned_rooms(o).len() ==> {
                &&& self.room_map().contains_key(#[trigger] self.owned_rooms(o)[k])
                &&& self.room_map()[self.owned_rooms(o)[k]].owner_id == o
            }
        // each room is listed under its owner
        &&& forall|r: Seq<char>| #[trigger]
            self.room_map().contains_key(r) ==> self.owned_rooms(
                self.room_map()[r].owner_id,
            ).contains(r)
    }
}

/// The ledger after `owner` registers a new room `name`.
pub open spec fn register_room(
    m: LedgerView,
    owner: Seq<char>,
    name: Seq<char>,
    image: Seq<char>,
    beds: u8,
    description: Seq<char>,
    location: Seq<char>,
    price: u128,
) -> LedgerView {
    let id = room_id_of(owner, name);
    LedgerView {
        rooms: m.rooms.push((id, fresh_room(owner, name, image, beds, description, location, price))),
        owners: upsert(m.owners, owner, m.owned_rooms(owner).push(id)),
        guests: m.guests,
    }
}

/// Why booking `room` for `date` by `guest` with `deposit` attached is refused,
/// checked in this order; `None` when it goes through.
pub open spec fn booking_check(
    m: LedgerView,
    room: Seq<char>,
    date: Seq<char>,
    guest: Seq<char>,
    deposit: u128,
) -> Option<LedgerError> {
    if !m.room_map().contains_key(room) {
        Some(LedgerError::RoomNotFound)
    } else if deposit != m.room_map()[room].price {
        Some(LedgerError::IncorrectDeposit)
    } else if m.booked_guest(room, date) is Some {
        Some(LedgerError::DateAlreadyBooked)
    } else if m.guest_room(guest, date) is Some {
        Some(LedgerError::DuplicateBooking)
    } else {
        None
    }
}

/// Room `room` with `date` booked by `guest`.
pub open spec fn booked_room(m: LedgerView, room: Seq<char>, date: Seq<char>, guest: Seq<char>) -> RoomView {
    let before = m.room_map()[room];
    RoomView { booked_info: before.booked_info.push((date, guest)), ..before }
}

/// The guest index once `guest` holds `room` for `date` as well.
pub open spec fn guests_after_booking(
    m: LedgerView,
    guest: Seq<char>,
    date: Seq<char>,
    room: Seq<char>,
) -> Seq<(Seq<char>, Seq<(Seq<char>, Seq<char>)>)> {
    upsert(m.guests, guest, m.guest_entries(guest).push((date, room)))
}

/// The ledger after `guest` books `room` for `date`.
pub open spec fn book(m: LedgerView, room: Seq<char>, date: Seq<char>, guest: Seq<char>) -> LedgerView {
    LedgerView {
        rooms: upsert(m.rooms, room, booked_room(m, room, date, guest)),
        owners: m.owners,
        guests: guests_after_booking(m, guest, date, room),
    }
}

/// Room `room` marked as occupied for `date`.
pub open spec fn staying_room(m: LedgerView, room: Seq<char>, date: Seq<char>) -> RoomView {
    RoomView { status: StatusView::Stay { check_in_date: date }, ..m.room_map()[room] }
}

/// The ledger after room `room` is marked as occupied for `date`.
pub open spec fn check_in(m: LedgerView, room: Seq<char>, date: Seq<char>) -> LedgerView {
    LedgerView { rooms: upsert(m.rooms, room, staying_room(m, room, date)), ..m }
}

/// Why checking `guest` out of `room` for `date` is refused; `None` when it goes through.
pub open spec fn release_check(
    m: LedgerView,
    room: Seq<char>,
    date: Seq<char>,
    guest: Seq<char>,
) -> Option<LedgerError> {
    if !m.room_map().contains_key(room) {
        Some(LedgerError::RoomNotFound)
    } else if m.booked_guest(room, date) != Some(guest) {
        Some(LedgerError::DateNotBooked)
    } else {
        None
    }
}

/// Room `room` without its booking for `date`, and available.
pub open spec fn released_room(m: LedgerView, room: Seq<char>, date: Seq<char>) -> RoomView {
    let before = m.room_map()[room];
    RoomView {
        status: StatusView::Available,
        booked_info: before.booked_info.remove(key_pos(before.booked_info, date)),
        ..before
    }
}

/// The bookings of `guest` but the one for `date`.
pub open spec fn remaining_entries(m: LedgerView, guest: Seq<char>, date: Seq<char>) -> Seq<
    (Seq<char>, Seq<char>),
> {
    let entries = m.guest_entries(guest);
    entries.remove(key_pos(entries, date))
}

/// The guest index without the booking of `guest` for `date`; a guest left
/// with no booking leaves the index.
pub open spec fn guests_after_release(m: LedgerView, guest: Seq<char>, date: Seq<char>) -> Seq<
    (Seq<char>, Seq<(Seq<char>, Seq<char>)>),
> {
    let rest = remaining_entries(m, guest, date);
    if rest.len() == 0 {
        remove_key(m.guests, guest)
    } else {
        upsert(m.guests, guest, rest)
    }
}

/// The ledger after `guest` checks out of `room` for `date`.
pub open spec fn check_out(m: LedgerView, room: Seq<char>, date: Seq<char>, guest: Seq<char>) -> LedgerView {
    LedgerView {
        rooms: upsert(m.rooms, room, released_room(m, room, date)),
        owners: m.owners,
        guests: guests_after_release(m, guest, date),
    }
}

/// How room `id` appears in the list of rooms available on some date.
pub open spec fn available_view(id: Seq<char>, room: RoomView) -> AvailableRoomView {
    AvailableRoomView {
        room_id: id,
        owner_id: room.owner_id,
        name: room.name,
        image: room.image,
        beds: room.beds,
        description: room.description,
        location: room.location,
        price: room.price,
    }
}

/// The rooms of `rooms` with no booking for `date`, in registry order.
pub open spec fn available_rows(rooms: Seq<(Seq<char>, RoomView)>, date: Seq<char>) -> Seq<
    AvailableRoomView,
>
    decreases rooms.len(),
{
    if rooms.len() == 0 {
        Seq::empty()
    } else {
        let prev = available_rows(rooms.drop_last(), date);
        let last = rooms.last();
        if has_key(last.1.booked_info, date) {
            prev
        } else {
            prev.push(available_view(last.0, last.1))
        }
    }
}

/// How a room appears in its owner's list of registered rooms.
pub open spec fn registered_view(room: RoomView) -> RegisteredRoomView {
    RegisteredRoomView {
        name: room.name,
        image: room.image,
        beds: room.beds,
        description: room.description,
        location: room.location,
        price: room.price,
        status: room.status,
    }
}

/// The status shown on the booking row for `date`: `Stay` only for the date of
/// the current stay, `Available` otherwise.
pub open spec fn row_status(status: StatusView, date: Seq<char>) -> StatusView {
    match status {
        StatusView::Stay { check_in_date } => if check_in_date == date {
            status
        } else {
            StatusView::Available
        },
        StatusView::Available => StatusView::Available,
    }
}

/// The booking rows of room `id`, one per booked date, in booking order.
pub open spec fn room_booking_rows(id: Seq<char>, room: RoomView) -> Seq<BookedRoomView> {
    room.booked_info.map_values(
        |p: (Seq<char>, Seq<char>)|
            BookedRoomView {
                room_id: id,
                name: room.name,
                check_in_date: p.0,
                guest_id: p.1,
                status: row_status(room.status, p.0),
            },
    )
}

/// The booking rows of the rooms `ids`, room after room.
pub open spec fn owner_booking_rows(m: LedgerView, ids: Seq<Seq<char>>) -> Seq<BookedRoomView>
    decreases ids.len(),
{
    if ids.len() == 0 {
        Seq::empty()
    } else {
        owner_booking_rows(m, ids.drop_last()) + room_booking_rows(
            ids.last(),
            m.room_map()[ids.last()],
        )
    }
}

/// How a guest's booking of room `id` for `date` appears to that guest.
pub open spec fn guest_row(m: LedgerView, date: Seq<char>, id: Seq<char>) -> GuestBookedRoomView {
    GuestBookedRoomView {
        owner_id: m.room_map()[id].owner_id,
        room_name: m.room_map()[id].name,
        check_in_date: date,
    }
}

/// The rows that `guest` sees, one per booking, in booking order.
pub open spec fn guest_rows(m: LedgerView, guest: Seq<char>) -> Seq<GuestBookedRoomView> {
    m.guest_entries(guest).map_values(|p: (Seq<char>, Seq<char>)| guest_row(m, p.0, p.1))
}

/// Taking out the pair at `i` and putting back one with the same key updates it in place.
pub proof fn lemma_take_put<W>(s: Seq<(Seq<char>, W)>, i: int, v: W)
    requires
        0 <= i < s.len(),
    ensures
        s.remove(i).insert(i, (s[i].0, v)) == s.update(i, (s[i].0, v)),
{
    assert(s.remove(i).insert(i, (s[i].0, v)) =~= s.update(i, (s[i].0, v)));
}

/// Registering a new room keeps the indexes in agreement.
proof fn lemma_register_consistent(
    old: LedgerView,
    new: LedgerView,
    id: Seq<char>,
    room: RoomView,
)
    requires
        old.consistent(),
        new.well_keyed(),
        !old.room_map().contains_key(id),
        room.booked_info.len() == 0,
        new.room_map() == old.room_map().insert(id, room),
        new.owner_map() == old.owner_map().insert(
            room.owner_id,
            old.owned_rooms(room.owner_id).push(id),
        ),
        new.guests == old.guests,
    ensures
        new.consistent(),
{
    assert forall|r: Seq<char>, d: Seq<char>| #[trigger]
        new.booked_guest(r, d) == if r == id {
            None
        } else {
            old.booked_guest(r, d)
        } by {
        if r == id {
            assert(!has_key(room.booked_info, d));
        }
    }
    assert forall|g: Seq<char>, d: Seq<char>| #[trigger]
        new.guest_room(g, d) == old.guest_room(g, d) by {}
    assert forall|r: Seq<char>, d: Seq<char>| #[trigger]
        new.booked_guest(r, d) is Some implies new.guest_room(new.booked_guest(r, d)->0, d)
        == Some(r) by {
        assert(old.booked_guest(r, d) is Some);
    }
    assert forall|g: Seq<char>, d: Seq<char>| #[trigger]
        new.guest_room(g, d) is Some implies new.booked_guest(new.guest_room(g, d)->0, d)
        == Some(g) by {
        let r = old.guest_room(g, d)->0;
        assert(old.booked_guest(r, d) is Some);
        assert(old.room_map().contains_key(r));
    }
    assert forall|o: Seq<char>, k: int| 0 <= k < new.owned_rooms(o).len() implies {
        &&& new.room_map().contains_key(#[trigger] new.owned_rooms(o)[k])
        &&& new.room_map()[new.owned_rooms(o)[k]].owner_id == o
    } by {
        if o == room.owner_id && k == old.owned_rooms(o).len() {
        } else {
            assert(new.owned_rooms(o)[k] == old.owned_rooms(o)[k]);
            assert(old.room_map().contains_key(old.owned_rooms(o)[k]));
        }
    }
    assert forall|r: Seq<char>| #[trigger] new.room_map().contains_key(r) implies new.owned_rooms(
        new.room_map()[r].owner_id,
    ).contains(r) by {
        let o = new.room_map()[r].owner_id;
        if r == id {
            assert(new.owned_rooms(o)[old.owned_rooms(o).len() as int] == id);
        } else {
            assert(old.room_map().contains_key(r));
            assert(old.owned_rooms(o).contains(r));
            let k = choose|k: int| 0 <= k < old.owned_rooms(o).len() && old.owned_rooms(o)[k] == r;
            assert(new.owned_rooms(o)[k] == r);
        }
    }
    assert forall|g: Seq<char>| #[trigger] new.guest_map().contains_key(g) implies new.guest_map()[g].len() > 0 by {
        assert(old.guest_map().contains_key(g));
    }
}

/// Recording a booking of a free date by a guest with no booking on that date
/// keeps the indexes in agreement.
proof fn lemma_book_consistent(
    old: LedgerView,
    new: LedgerView,
    id: Seq<char>,
    date: Seq<char>,
    guest: Seq<char>,
    room: RoomView,
    entries: Seq<(Seq<char>, Seq<char>)>,
)
    requires
        old.consistent(),
        new.well_keyed(),
        old.room_map().contains_key(id),
        old.booked_guest(id, date) is None,
        old.guest_room(guest, date) is None,
        room.owner_id == old.room_map()[id].owner_id,
        as_map(room.booked_info) == old.room_bookings(id).insert(date, guest),
        new.room_map() == old.room_map().insert(id, room),
        new.owner_map() == old.owner_map(),
        entries.len() > 0,
        as_map(entries) == old.guest_bookings(guest).insert(date, id),
        new.guest_map() == old.guest_map().insert(guest, entries),
    ensures
        new.consistent(),
{
    assert forall|r: Seq<char>, d: Seq<char>| #[trigger]
        new.booked_guest(r, d) == if r == id && d == date {
            Some(guest)
        } else {
            old.booked_guest(r, d)
        } by {}
    assert forall|g: Seq<char>, d: Seq<char>| #[trigger]
        new.guest_room(g, d) == if g == guest && d == date {
            Some(id)
        } else {
            old.guest_room(g, d)
        } by {}
    assert forall|r: Seq<char>, d: Seq<char>| #[trigger]
        new.booked_guest(r, d) is Some implies new.guest_room(new.booked_guest(r, d)->0, d)
        == Some(r) by {
        if !(r == id && d == date) {
            let g = old.booked_guest(r, d)->0;
            assert(old.guest_room(g, d) == Some(r));
        }
    }
    assert forall|g: Seq<char>, d: Seq<char>| #[trigger]
        new.guest_room(g, d) is Some implies new.booked_guest(new.guest_room(g, d)->0, d)
        == Some(g) by {
        if !(g == guest && d == date) {
            let r = old.guest_room(g, d)->0;
            assert(old.booked_guest(r, d) == Some(g));
        }
    }
    assert forall|o: Seq<char>, k: int| 0 <= k < new.owned_rooms(o).len() implies {
        &&& new.room_map().contains_key(#[trigger] new.owned_rooms(o)[k])
        &&& new.room_map()[new.owned_rooms(o)[k]].owner_id == o
    } by {
        assert(old.room_map().contains_key(old.owned_rooms(o)[k]));
    }
    assert forall|r: Seq<char>| #[trigger] new.room_map().contains_key(r) implies new.owned_rooms(
        new.room_map()[r].owner_id,
    ).contains(r) by {
        assert(old.room_map().contains_key(r));
    }
    assert forall|g: Seq<char>| #[trigger] new.guest_map().contains_key(g) implies new.guest_map()[g].len() > 0 by {
        if g != guest {
            assert(old.guest_map().contains_key(g));
        }
    }
}

/// Dropping a booking from both its room and its guest keeps the indexes in agreement.
proof fn lemma_release_consistent(
    old: LedgerView,
    new: LedgerView,
    id: Seq<char>,
    date: Seq<char>,
    guest: Seq<char>,
    room: RoomView,
    rest: Seq<(Seq<char>, Seq<char>)>,
)
    requires
        old.consistent(),
        new.well_keyed(),
        old.booked_guest(id, date) == Some(guest),
        room.owner_id == old.room_map()[id].owner_id,
        as_map(room.booked_info) == old.room_bookings(id).remove(date),
        new.room_map() == old.room_map().insert(id, room),
        new.owner_map() == old.owner_map(),
        as_map(rest) == old.guest_bookings(guest).remove(date),
        rest.len() == 0 ==> new.guest_map() == old.guest_map().remove(guest),
        rest.len() > 0 ==> new.guest_map() == old.guest_map().insert(guest, rest),
    ensures
        new.consistent(),
{
    assert(old.guest_room(guest, date) == Some(id));
    assert forall|r: Seq<char>, d: Seq<char>| #[trigger]
        new.booked_guest(r, d) == if r == id && d == date {
            None
        } else {
            old.booked_guest(r, d)
        } by {}
    assert forall|g: Seq<char>, d: Seq<char>| #[trigger]
        new.guest_room(g, d) == if g == guest && d == date {
            None
        } else {
            old.guest_room(g, d)
        } by {
        if g == guest && rest.len() == 0 {
            assert(!has_key(rest, d));
            assert(!as_map(rest).contains_key(d));
        }
    }
    assert forall|r: Seq<char>, d: Seq<char>| #[trigger]
        new.booked_guest(r, d) is Some implies new.guest_room(new.booked_guest(r, d)->0, d)
        == Some(r) by {
        let g = old.booked_guest(r, d)->0;
        assert(old.guest_room(g, d) == Some(r));
    }
    assert forall|g: Seq<char>, d: Seq<char>| #[trigger]
        new.guest_room(g, d) is Some implies new.booked_guest(new.guest_room(g, d)->0, d)
        == Some(g) by {
        let r = old.guest_room(g, d)->0;
        assert(old.booked_guest(r, d) == Some(g));
    }
    assert forall|o: Seq<char>, k: int| 0 <= k < new.owned_rooms(o).len() implies {
        &&& new.room_map().contains_key(#[trigger] new.owned_rooms(o)[k])
        &&& new.room_map()[new.owned_rooms(o)[k]].owner_id == o
    } by {
        assert(old.room_map().contains_key(old.owned_rooms(o)[k]));
    }
    assert forall|r: Seq<char>| #[trigger] new.room_map().contains_key(r) implies new.owned_rooms(
        new.room_map()[r].owner_id,
    ).contains(r) by {
        assert(old.room_map().contains_key(r));
    }
    assert forall|g: Seq<char>| #[trigger] new.guest_map().contains_key(g) implies new.guest_map()[g].len() > 0 by {
        if g != guest {
            assert(old.guest_map().contains_key(g));
        }
    }
}

/// Changing a room's status alone keeps the indexes in agreement.
proof fn lemma_status_consistent(old: LedgerView, new: LedgerView, id: Seq<char>, room: RoomView)
    requires
        old.consistent(),
        new.well_keyed(),
        old.room_map().contains_key(id),
        room.owner_id == old.room_map()[id].owner_id,
        room.booked_info == old.room_map()[id].booked_info,
        new.room_map() == old.room_map().insert(id, room),
        new.owner_map() == old.owner_map(),
        new.guests == old.guests,
    ensures
        new.consistent(),
{
    assert forall|r: Seq<char>, d: Seq<char>| #[trigger]
        new.booked_guest(r, d) == old.booked_guest(r, d) by {}
    assert forall|g: Seq<char>, d: Seq<char>| #[trigger]
        new.guest_room(g, d) == old.guest_room(g, d) by {}
    assert forall|o: Seq<char>, k: int| 0 <= k < new.owned_rooms(o).len() implies {
        &&& new.room_map().contains_key(#[trigger] new.owned_rooms(o)[k])
        &&& new.room_map()[new.owned_rooms(o)[k]].owner_id == o
    } by {
        assert(old.room_map().contains_key(old.owned_rooms(o)[k]));
    }
    assert forall|r: Seq<char>| #[trigger] new.room_map().contains_key(r) implies new.owned_rooms(
        new.room_map()[r].owner_id,
    ).contains(r) by {
        assert(old.room_map().contains_key(r));
    }
    assert forall|g: Seq<char>| #[trigger] new.guest_map().contains_key(g) implies new.guest_map()[g].len() > 0 by {
        assert(old.guest_map().contains_key(g));
    }
}

/// The bookings that the guest index holds for `guest`, as a list and as a map.
pub proof fn lemma_guest_entries(m: LedgerView, guest: Seq<char>)
    requires
        m.well_keyed(),
    ensures
        keys_unique(m.guest_entries(guest)),
        as_map(m.guest_entries(guest)) == m.guest_bookings(guest),
{
    if m.guest_map().contains_key(guest) {
        let i = key_pos(m.guests, guest);
        lemma_key_pos(m.guests, i);
        assert(m.guest_entries(guest) == m.guests[i].1);
    } else {
        assert(as_map(m.guest_entries(guest)) =~= Map::<Seq<char>, Seq<char>>::empty());
    }
}

/// The bookings of a registered room have each date once.
pub proof fn lemma_room_entries(m: LedgerView, room: Seq<char>)
    requires
        m.well_keyed(),
        m.room_map().contains_key(room),
    ensures
        keys_unique(m.room_map()[room].booked_info),
        as_map(m.room_map()[room].booked_info) == m.room_bookings(room),
{
    let i = key_pos(m.rooms, room);
    lemma_key_pos(m.rooms, i);
    assert(m.room_map()[room] == m.rooms[i].1);
}

/// Registering a room under a new id keeps the ledger consistent, adds the room
/// and lists it under its owner.
pub proof fn lemma_register(
    m: LedgerView,
    owner: Seq<char>,
    name: Seq<char>,
    image: Seq<char>,
    beds: u8,
    description: Seq<char>,
    location: Seq<char>,
    price: u128,
)
    requires
        m.consistent(),
        !m.room_map().contains_key(room_id_of(owner, name)),
    ensures
        ({
            let n = register_room(m, owner, name, image, beds, description, location, price);
            let id = room_id_of(owner, name);
            &&& n.consistent()
            &&& n.room_map() == m.room_map().insert(
                id,
                fresh_room(owner, name, image, beds, description, location, price),
            )
            &&& n.owner_map() == m.owner_map().insert(owner, m.owned_rooms(owner).push(id))
            &&& n.guests == m.guests
        }),
{
    let n = register_room(m, owner, name, image, beds, description, location, price);
    let id = room_id_of(owner, name);
    let room = fresh_room(owner, name, image, beds, description, location, price);
    lemma_push(m.rooms, id, room);
    lemma_upsert(m.owners, owner, m.owned_rooms(owner).push(id));
    assert forall|i: int| 0 <= i < n.rooms.len() implies keys_unique(#[trigger] n.rooms[i].1.booked_info) by {
        if i < m.rooms.len() {
            assert(n.rooms[i] == m.rooms[i]);
        }
    }
    lemma_register_consistent(m, n, id, room);
}

/// A booking that passes its checks keeps the ledger consistent and is recorded
/// on the room and in the guest index.
pub proof fn lemma_book(m: LedgerView, room: Seq<char>, date: Seq<char>, guest: Seq<char>, deposit: u128)
    requires
        m.consistent(),
        booking_check(m, room, date, guest, deposit) is None,
    ensures
        ({
            let n = book(m, room, date, guest);
            let entries = m.guest_entries(guest).push((date, room));
            &&& n.consistent()
            &&& n.room_map() == m.room_map().insert(room, booked_room(m, room, date, guest))
            &&& n.owner_map() == m.owner_map()
            &&& n.guest_map() == m.guest_map().insert(guest, entries)
            &&& n.room_bookings(room) == m.room_bookings(room).insert(date, guest)
            &&& n.guest_bookings(guest) == m.guest_bookings(guest).insert(date, room)
        }),
{
    let n = book(m, room, date, guest);
    let booked = booked_room(m, room, date, guest);
    let entries = m.guest_entries(guest).push((date, room));
    lemma_room_entries(m, room);
    lemma_push(m.room_map()[room].booked_info, date, guest);
    lemma_guest_entries(m, guest);
    lemma_push(m.guest_entries(guest), date, room);
    lemma_upsert(m.rooms, room, booked);
    lemma_upsert(m.guests, guest, entries);
    let ri = key_pos(m.rooms, room);
    lemma_key_pos(m.rooms, ri);
    assert forall|i: int| 0 <= i < n.rooms.len() implies keys_unique(#[trigger] n.rooms[i].1.booked_info) by {
        if i != ri {
            assert(n.rooms[i] == m.rooms[i]);
        }
    }
    assert forall|i: int| 0 <= i < n.guests.len() implies keys_unique(#[trigger] n.guests[i].1) by {
        if has_key(m.guests, guest) {
            let gi = key_pos(m.guests, guest);
            if i != gi {
                assert(n.guests[i] == m.guests[i]);
            }
        } else if i < m.guests.len() {
            assert(n.guests[i] == m.guests[i]);
        }
    }
    lemma_book_consistent(m, n, room, date, guest, booked, entries);
}

/// Marking a registered room as occupied keeps the ledger consistent and
/// changes nothing but that room's status.
pub proof fn lemma_check_in(m: LedgerView, room: Seq<char>, date: Seq<char>)
    requires
        m.consistent(),
        m.room_map().contains_key(room),
    ensures
        ({
            let n = check_in(m, room, date);
            &&& n.consistent()
            &&& n.room_map() == m.room_map().insert(room, staying_room(m, room, date))
            &&& n.owners == m.owners
            &&& n.guests == m.guests
        }),
{
    let n = check_in(m, room, date);
    let staying = staying_room(m, room, date);
    lemma_upsert(m.rooms, room, staying);
    let ri = key_pos(m.rooms, room);
    lemma_key_pos(m.rooms, ri);
    assert forall|i: int| 0 <= i < n.rooms.len() implies keys_unique(#[trigger] n.rooms[i].1.booked_info) by {
        if i != ri {
            assert(n.rooms[i] == m.rooms[i]);
        }
    }
    lemma_status_consistent(m, n, room, staying);
}

/// A check-out that passes its checks keeps the ledger consistent and drops the
/// booking from the room and from the guest index.
pub proof fn lemma_check_out(m: LedgerView, room: Seq<char>, date: Seq<char>, guest: Seq<char>)
    requires
        m.consistent(),
        release_check(m, room, date, guest) is None,
    ensures
        ({
            let n = check_out(m, room, date, guest);
            let rest = remaining_entries(m, guest, date);
            &&& n.consistent()
            &&& n.room_map() == m.room_map().insert(room, released_room(m, room, date))
            &&& n.owner_map() == m.owner_map()
            &&& rest.len() == 0 ==> n.guest_map() == m.guest_map().remove(guest)
            &&& rest.len() > 0 ==> n.guest_map() == m.guest_map().insert(guest, rest)
            &&& n.room_bookings(room) == m.room_bookings(room).remove(date)
            &&& n.guest_bookings(guest) == m.guest_bookings(guest).remove(date)
        }),
{
    let n = check_out(m, room, date, guest);
    let released = released_room(m, room, date);
    let rest = remaining_entries(m, guest, date);
    let bi = m.room_map()[room].booked_info;
    lemma_room_entries(m, room);
    assert(has_key(bi, date));
    lemma_key_pos(bi, key_pos(bi, date));
    lemma_remove(bi, key_pos(bi, date));
    assert(m.guest_room(guest, date) == Some(room));
    lemma_guest_entries(m, guest);
    let entries = m.guest_entries(guest);
    assert(has_key(entries, date));
    lemma_key_pos(entries, key_pos(entries, date));
    lemma_remove(entries, key_pos(entries, date));
    lemma_upsert(m.rooms, room, released);
    let ri = key_pos(m.rooms, room);
    lemma_key_pos(m.rooms, ri);
    assert forall|i: int| 0 <= i < n.rooms.len() implies keys_unique(#[trigger] n.rooms[i].1.booked_info) by {
        if i != ri {
            assert(n.rooms[i] == m.rooms[i]);
        }
    }
    let gi = key_pos(m.guests, guest);
    lemma_key_pos(m.guests, gi);
    if rest.len() == 0 {
        lemma_remove_key(m.guests, guest);
        assert forall|i: int| 0 <= i < n.guests.len() implies keys_unique(#[trigger] n.guests[i].1) by {
            if i < gi {
                assert(n.guests[i] == m.guests[i]);
            } else {
                assert(n.guests[i] == m.guests[i + 1]);
            }
        }
        assert(!n.guest_map().contains_key(guest));
        assert(n.guest_bookings(guest) =~= m.guest_bookings(guest).remove(date)) by {
            assert(as_map(rest) =~= Map::<Seq<char>, Seq<char>>::empty()) by {
                assert forall|d: Seq<char>| !has_key(rest, d) by {}
            }
        }
    } else {
        lemma_upsert(m.guests, guest, rest);
        assert forall|i: int| 0 <= i < n.guests.len() implies keys_unique(#[trigger] n.guests[i].1) by {
            if i != gi {
                assert(n.guests[i] == m.guests[i]);
            }
        }
    }
    lemma_release_consistent(m, n, room, date, guest, released, rest);
}

} // verus!
