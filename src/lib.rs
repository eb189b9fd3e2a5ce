//! A room-booking ledger: owners register rooms, guests book a room for a
//! check-in date by attaching its price, and a room's status moves between
//! available and occupied. Three indexes are kept in agreement: rooms by id,
//! room ids by owner, and bookings by guest.

pub mod keyed;
pub mod laws;
pub mod ledger;
pub mod model;
pub mod room;

pub use ledger::Contract;
pub use room::{
    AvailableRoom, BookedRoom, BookingReceipt, GuestBookedRoom, LedgerError, ResigteredRoom, Room,
    UsageStatus,
};
