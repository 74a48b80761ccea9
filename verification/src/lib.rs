//! Verified core of the SwiftJourney travel-booking backend: order state
//! rules, hotel room availability, seat availability on train legs, train
//! connection search, session bookkeeping and the decisions of each service.
use vstd::prelude::*;

pub mod dish_data;
pub mod dish_query;
pub mod domain;
pub mod geo;
pub mod hotel;
pub mod hotel_booking;
pub mod hotel_query;
pub mod hotel_rating;
pub mod keyed_sort;
pub mod meal_booking;
pub mod money;
pub mod order;
pub mod password;
pub mod route;
pub mod session;
pub mod train_booking;
pub mod train_dish;
pub mod train_type;
pub mod transaction;
pub mod user;
pub mod train_schedule;
pub mod train_seat;

verus! {

/// Marker: a value that has not been checked against the stored data yet.
#[derive(Debug, Clone, Copy, PartialEq, Eq, Hash)]
pub struct Unverified;

/// Marker: a value that was checked against the stored data.
#[derive(Debug, Clone, Copy, PartialEq, Eq, Hash)]
pub struct Verified;

/// Longest stay, in nights, that one hotel booking may cover.
pub const HOTEL_MAX_BOOKING_DAYS: u32 = 7;

/// Longest hotel comment, in bytes.
pub const HOTEL_MAX_COMMENT_LENGTH: usize = 8192;

/// Number of rows written to the database in one statement.
pub const DB_CHUNK_SIZE: usize = 4096;

/// Number of live websocket sessions kept per user.
pub const MAX_CONCURRENT_WEBSOCKET_SESSION_PER_USER: usize = 3;

/// Period, in seconds, of the order status refresh.
pub const ORDER_STATUS_UPDATE_INTERVAL_SECONDS: u64 = 60;

} // verus!
