//! The records of the ledger and the rows it hands out, each with the value
//! it stands for.

use vstd::prelude::*;

use crate::keyed::KeyedVec;

verus! {

/// Coarse occupancy flag of a room, kept apart from its bookings.
#[derive(Debug)]
pub enum UsageStatus {
    Available,
    Stay { check_in_date: String },
}

/// What a `UsageStatus` stands for.
pub enum StatusView {
    Available,
    Stay { check_in_date: Seq<char> },
}

impl View for UsageStatus {
    type V = StatusView;

    open spec fn view(&self) -> StatusView {
        match self {
            UsageStatus::Available => StatusView::Available,
            UsageStatus::Stay { check_in_date } => StatusView::Stay { check_in_date: check_in_date@ },
        }
    }
}

impl DeepView for UsageStatus {
    type V = StatusView;

    open spec fn deep_view(&self) -> StatusView {
        self@
    }
}

impl PartialEq for UsageStatus {
    fn eq(&self, other: &UsageStatus) -> (r: bool)
        ensures
            r == (self@ == other@),
    {
        match (self, other) {
            (UsageStatus::Available, UsageStatus::Available) => true,
            (UsageStatus::Stay { check_in_date: a }, UsageStatus::Stay { check_in_date: b }) => *a == *b,
            _ => false,
        }
    }
}

impl vstd::std_specs::cmp::PartialEqSpecImpl for UsageStatus {
    open spec fn obeys_eq_spec() -> bool {
        true
    }

    open spec fn eq_spec(&self, other: &UsageStatus) -> bool {
        self@ == other@
    }
}

impl UsageStatus {
    pub fn is_available(&self) -> (r: bool)
        ensures
            r == (self@ is Available),
    {
        match self {
            UsageStatus::Available => true,
            UsageStatus::Stay { .. } => false,
        }
    }

    /// A copy of the status.
    pub fn duplicate(&self) -> (r: UsageStatus)
        ensures
            r@ == self@,
    {
        match self {
            UsageStatus::Available => UsageStatus::Available,
            UsageStatus::Stay { check_in_date } => UsageStatus::Stay { check_in_date: check_in_date.clone() },
        }
    }
}

/// A room as the registry stores it.
pub struct Room {
    pub name: String,
    pub owner_id: String,
    pub image: String,
    pub beds: u8,
    pub description: String,
    pub location: String,
    pub price: u128,
    pub status: UsageStatus,
    /// Check-in date to the guest who booked it.
    pub booked_info: KeyedVec<String>,
}

/// What a `Room` stands for; `booked_info` lists (date, guest) in the order of booking.
pub struct RoomView {
    pub name: Seq<char>,
    pub owner_id: Seq<char>,
    pub image: Seq<char>,
    pub beds: u8,
    pub description: Seq<char>,
    pub location: Seq<char>,
    pub price: u128,
    pub status: StatusView,
    pub booked_info: Seq<(Seq<char>, Seq<char>)>,
}

impl View for Room {
    type V = RoomView;

    open spec fn view(&self) -> RoomView {
        RoomView {
            name: self.name@,
            owner_id: self.owner_id@,
            image: self.image@,
            beds: self.beds,
            description: self.description@,
            location: self.location@,
            price: self.price,
            status: self.status@,
            booked_info: self.booked_info@,
        }
    }
}

impl DeepView for Room {
    type V = RoomView;

    open spec fn deep_view(&self) -> RoomView {
        self@
    }
}

/// A room as its owner sees it in the list of registered rooms.
#[derive(Debug)]
pub struct ResigteredRoom {
    pub name: String,
    pub image: String,
    pub beds: u8,
    pub description: String,
    pub location: String,
    pub price: u128,
    pub status: UsageStatus,
}

pub struct RegisteredRoomView {
    pub name: Seq<char>,
    pub image: Seq<char>,
    pub beds: u8,
    pub description: Seq<char>,
    pub location: Seq<char>,
    pub price: u128,
    pub status: StatusView,
}

impl View for ResigteredRoom {
    type V = RegisteredRoomView;

    open spec fn view(&self) -> RegisteredRoomView {
        RegisteredRoomView {
            name: self.name@,
            image: self.image@,
            beds: self.beds,
            description: self.description@,
            location: self.location@,
            price: self.price,
            status: self.status@,
        }
    }
}

impl DeepView for ResigteredRoom {
    type V = RegisteredRoomView;

    open spec fn deep_view(&self) -> RegisteredRoomView {
        self@
    }
}

/// One booking of one of an owner's rooms.
#[derive(Debug)]
pub struct BookedRoom {
    pub room_id: String,
    pub name: String,
    pub check_in_date: String,
    pub guest_id: String,
    pub status: UsageStatus,
}

pub struct BookedRoomView {
    pub room_id: Seq<char>,
    pub name: Seq<char>,
    pub check_in_date: Seq<char>,
    pub guest_id: Seq<char>,
    pub status: StatusView,
}

impl View for BookedRoom {
    type V = BookedRoomView;

    open spec fn view(&self) -> BookedRoomView {
        BookedRoomView {
            room_id: self.room_id@,
            name: self.name@,
            check_in_date: self.check_in_date@,
            guest_id: self.guest_id@,
            status: self.status@,
        }
    }
}

impl DeepView for BookedRoom {
    type V = BookedRoomView;

    open spec fn deep_view(&self) -> BookedRoomView {
        self@
    }
}

/// A room that can still be booked for a given date.
#[derive(Debug)]
pub struct AvailableRoom {
    pub room_id: String,
    pub owner_id: String,
    pub name: String,
    pub image: String,
    pub beds: u8,
    pub description: String,
    pub location: String,
    pub price: u128,
}

pub struct AvailableRoomView {
    pub room_id: Seq<char>,
    pub owner_id: Seq<char>,
    pub name: Seq<char>,
    pub image: Seq<char>,
    pub beds: u8,
    pub description: Seq<char>,
    pub location: Seq<char>,
    pub price: u128,
}

impl View for AvailableRoom {
    type V = AvailableRoomView;

    open spec fn view(&self) -> AvailableRoomView {
        AvailableRoomView {
            room_id: self.room_id@,
            owner_id: self.owner_id@,
            name: self.name@,
            image: self.image@,
            beds: self.beds,
            description: self.description@,
            location: self.location@,
            price: self.price,
        }
    }
}

impl DeepView for AvailableRoom {
    type V = AvailableRoomView;

    open spec fn deep_view(&self) -> AvailableRoomView {
        self@
    }
}

/// One booking as the guest who holds it sees it.
#[derive(Debug)]
pub struct GuestBookedRoom {
    pub owner_id: String,
    pub room_name: String,
    pub check_in_date: String,
}

pub struct GuestBookedRoomView {
    pub owner_id: Seq<char>,
    pub room_name: Seq<char>,
    pub check_in_date: Seq<char>,
}

impl View for GuestBookedRoom {
    type V = GuestBookedRoomView;

    open spec fn view(&self) -> GuestBookedRoomView {
        GuestBookedRoomView {
            owner_id: self.owner_id@,
            room_name: self.room_name@,
            check_in_date: self.check_in_date@,
        }
    }
}

impl DeepView for GuestBookedRoom {
    type V = GuestBookedRoomView;

    open spec fn deep_view(&self) -> GuestBookedRoomView {
        self@
    }
}

/// Why an operation on the ledger was refused. A refused operation changes nothing.
#[derive(Debug, Clone, Copy, PartialEq, Eq, Structural)]
pub enum LedgerError {
    RoomNotFound,
    DuplicateRoom,
    IncorrectDeposit,
    DateAlreadyBooked,
    DuplicateBooking,
    DateNotBooked,
    BookingNotFound,
    GuestNotFound,
}

/// The outcome of a booking: who booked what, and the payment the host must
/// transfer to the room's owner.
#[derive(Debug)]
pub struct BookingReceipt {
    pub room_id: String,
    pub check_in_date: String,
    pub guest_id: String,
    pub owner_id: String,
    pub amount: u128,
}

} // verus!
