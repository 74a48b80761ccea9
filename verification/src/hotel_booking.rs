//! Hotel bookings: which orders may be booked or cancelled, what a booking
//! holds, and how a group of bookings ends.
use vstd::prelude::*;

use crate::domain::{OrderStatus, RepositoryError};
use crate::hotel::{
    holds_night, max_occupied, occupied_on, HotelBookingServiceError, HotelDateRange, HotelRoomStatus, OccupiedRoom,
};
use crate::money::{amount_ok, amount_to_i32, amount_trunc, Amount};

verus! {

/// An order for rooms of one room type of a hotel over a stay.
#[derive(Debug, Clone, Copy, PartialEq, Eq)]
pub struct HotelOrder {
    pub uuid: u128,
    pub order_status: OrderStatus,
    pub hotel_id: u64,
    pub room_id: u64,
    pub booking_date_range: HotelDateRange,
    pub personal_info_id: u64,
    pub amount: Amount,
}

/// What the order lookup gives for booking: the order, if it exists and is paid.
pub open spec fn booking_check(
    order_uuid: u128,
    found: Result<Option<HotelOrder>, RepositoryError>,
) -> Result<HotelOrder, HotelBookingServiceError> {
    match found {
        Err(e) => Err(HotelBookingServiceError::InfrastructureError(e)),
        Ok(None) => Err(HotelBookingServiceError::InvalidOrder(order_uuid)),
        Ok(Some(o)) => if o.order_status != OrderStatus::Paid {
            Err(HotelBookingServiceError::InvalidOrderStatus(order_uuid, o.order_status))
        } else {
            Ok(o)
        },
    }
}

/// What the order lookup gives for cancelling: the order, if it exists and is ongoing.
pub open spec fn cancel_check(
    order_uuid: u128,
    found: Result<Option<HotelOrder>, RepositoryError>,
) -> Result<HotelOrder, HotelBookingServiceError> {
    match found {
        Err(e) => Err(HotelBookingServiceError::InfrastructureError(e)),
        Ok(None) => Err(HotelBookingServiceError::InvalidOrder(order_uuid)),
        Ok(Some(o)) => if o.order_status != OrderStatus::Ongoing {
            Err(HotelBookingServiceError::InvalidOrderStatus(order_uuid, o.order_status))
        } else {
            Ok(o)
        },
    }
}

/// The room that one booked unit of `o` holds.
pub open spec fn room_for(o: HotelOrder) -> OccupiedRoom {
    OccupiedRoom {
        id: None,
        hotel_id: o.hotel_id,
        hotel_room_type_id: o.room_id,
        booking_date_range: o.booking_date_range,
        personal_info_id: o.personal_info_id,
    }
}

/// `o` with its status set to `s`.
pub open spec fn with_status(o: HotelOrder, s: OrderStatus) -> HotelOrder {
    HotelOrder { order_status: s, ..o }
}

/// Number of rooms that order `o` asks for.
pub open spec fn rooms_asked(o: HotelOrder) -> int {
    amount_trunc(o.amount)
}

/// The rooms that a booking of `o` holds: one per unit ordered.
pub open spec fn booked_rooms(o: HotelOrder) -> Seq<OccupiedRoom> {
    Seq::new(if rooms_asked(o) > 0 { rooms_asked(o) as nat } else { 0 }, |k: int| room_for(o))
}

/// Checks the order found for a booking request: it must exist and be paid.
pub fn check_booking_order(
    order_uuid: u128,
    found: Result<Option<HotelOrder>, RepositoryError>,
) -> (r: Result<HotelOrder, HotelBookingServiceError>)
    ensures
        r == booking_check(order_uuid, found),
{
    match found {
        Err(e) => Err(HotelBookingServiceError::InfrastructureError(e)),
        Ok(None) => Err(HotelBookingServiceError::InvalidOrder(order_uuid)),
        Ok(Some(o)) => {
            if o.order_status != OrderStatus::Paid {
                Err(HotelBookingServiceError::InvalidOrderStatus(order_uuid, o.order_status))
            } else {
                Ok(o)
            }
        },
    }
}

/// Checks the order found for a cancel request: it must exist and be ongoing.
pub fn check_cancel_order(
    order_uuid: u128,
    found: Result<Option<HotelOrder>, RepositoryError>,
) -> (r: Result<HotelOrder, HotelBookingServiceError>)
    ensures
        r == cancel_check(order_uuid, found),
{
    match found {
        Err(e) => Err(HotelBookingServiceError::InfrastructureError(e)),
        Ok(None) => Err(HotelBookingServiceError::InvalidOrder(order_uuid)),
        Ok(Some(o)) => {
            if o.order_status != OrderStatus::Ongoing {
                Err(HotelBookingServiceError::InvalidOrderStatus(order_uuid, o.order_status))
            } else {
                Ok(o)
            }
        },
    }
}

/// The order once its rooms are released: cancelled.
pub fn cancelled_order(order: &HotelOrder) -> (r: HotelOrder)
    ensures
        r == with_status(*order, OrderStatus::Cancelled),
{
    HotelOrder { order_status: OrderStatus::Cancelled, ..*order }
}

/// Rooms left, over the order's stay, of the order's room type.
pub open spec fn remain_of(available: Seq<(u64, HotelRoomStatus)>, room_id: u64, remain: int) -> bool {
    exists|i: int|
        0 <= i < available.len() && available[i].0 == room_id && available[i].1.remain_count
            == remain
}

/// Books a paid order against the rooms left of each room type over its
/// stay: refuses it when fewer rooms are left than it asks for, else gives
/// the rooms to hold (one per unit ordered) and the order, now ongoing.
pub fn plan_hotel_booking(order: &HotelOrder, available_room: &Vec<(u64, HotelRoomStatus)>) -> (r:
    Result<(Vec<OccupiedRoom>, HotelOrder), HotelBookingServiceError>)
    requires
        exists|i: int| 0 <= i < available_room@.len() && available_room@[i].0 == order.room_id,
        amount_ok(order.amount),
        i32::MIN <= amount_trunc(order.amount) <= i32::MAX,
    ensures
        exists|remain: int|
            remain_of(available_room@, order.room_id, remain) && if remain < rooms_asked(*order) {
                r == Err::<(Vec<OccupiedRoom>, HotelOrder), _>(
                    HotelBookingServiceError::NoAvailableRoom(order.uuid),
                )
            } else {
                r matches Ok(v) && v.0@ == booked_rooms(*order) && v.1 == with_status(
                    *order,
                    OrderStatus::Ongoing,
                )
            },
{
    let mut k: usize = 0;
    while k < available_room.len()
        invariant
            k <= available_room@.len(),
            forall|t: int| 0 <= t < k ==> available_room@[t].0 != order.room_id,
            exists|i: int| 0 <= i < available_room@.len() && available_room@[i].0 == order.room_id,
        ensures
            k < available_room@.len(),
            available_room@[k as int].0 == order.room_id,
        decreases available_room@.len() - k,
    {
        if available_room[k].0 == order.room_id {
            break;
        }
        k += 1;
    }
    let available_count = available_room[k].1.remain_count;
    assert(remain_of(available_room@, order.room_id, available_count as int));
    let to_order_count = match amount_to_i32(&order.amount) {
        Some(n) => n,
        None => 0,
    };
    if available_count < to_order_count {
        return Err(HotelBookingServiceError::NoAvailableRoom(order.uuid));
    }
    let mut rooms: Vec<OccupiedRoom> = Vec::new();
    let room = OccupiedRoom {
        id: None,
        hotel_id: order.hotel_id,
        hotel_room_type_id: order.room_id,
        booking_date_range: order.booking_date_range,
        personal_info_id: order.personal_info_id,
    };
    let mut c: i32 = 0;
    while c < to_order_count
        invariant
            0 <= c <= to_order_count || (to_order_count <= 0 && c == 0),
            rooms@.len() == c,
            room == room_for(*order),
            forall|t: int| 0 <= t < rooms@.len() ==> rooms@[t] == room,
        decreases to_order_count - c,
    {
        rooms.push(room);
        c += 1;
    }
    assert(rooms@ =~= booked_rooms(*order));
    Ok((rooms, HotelOrder { order_status: OrderStatus::Ongoing, ..*order }))
}

/// Progress of a group booking: the orders booked and the orders refused so far.
pub struct GroupBooking {
    pub succeeded: Vec<u128>,
    pub failed: Vec<u128>,
}

/// A refusal after which a group booking goes on with its next order.
pub open spec fn group_goes_on(e: HotelBookingServiceError) -> bool {
    e is NoAvailableRoom
}

impl GroupBooking {
    /// No order tried yet.
    pub fn new() -> (g: Self)
        ensures
            g.succeeded@ == Seq::<u128>::empty(),
            g.failed@ == Seq::<u128>::empty(),
    {
        GroupBooking { succeeded: Vec::new(), failed: Vec::new() }
    }

    /// Records the outcome of booking `order_uuid`; returns whether the group
    /// goes on with its next order (after a success, or after a refusal for
    /// want of rooms).
    pub fn record(&mut self, order_uuid: u128, outcome: &Result<(), HotelBookingServiceError>) -> (go_on: bool)
        ensures
            outcome is Ok ==> final(self).succeeded@ == old(self).succeeded@.push(order_uuid)
                && final(self).failed@ == old(self).failed@,
            outcome is Err ==> final(self).failed@ == old(self).failed@.push(order_uuid)
                && final(self).succeeded@ == old(self).succeeded@,
            go_on == match outcome {
                Ok(_) => true,
                Err(e) => group_goes_on(*e),
            },
    {
        match outcome {
            Ok(_) => {
                self.succeeded.push(order_uuid);
                true
            },
            Err(e) => {
                self.failed.push(order_uuid);
                match e {
                    HotelBookingServiceError::NoAvailableRoom(_) => true,
                    _ => false,
                }
            },
        }
    }

    /// The booked orders to cancel once the group is over: all of them when
    /// the group is atomic and some order was refused, none otherwise.
    pub fn to_cancel(&self, atomic: bool) -> (r: Vec<u128>)
        ensures
            atomic && self.failed@.len() > 0 ==> r@ == self.succeeded@,
            !(atomic && self.failed@.len() > 0) ==> r@ == Seq::<u128>::empty(),
    {
        if atomic && self.failed.len() > 0 {
            self.succeeded.clone()
        } else {
            Vec::new()
        }
    }
}

/// A booking that goes through leaves an order that a cancel request
/// accepts; once cancelled, the order is refused by a new booking request.
pub proof fn law_booked_order_can_be_cancelled(o: HotelOrder)
    requires
        o.order_status == OrderStatus::Paid,
    ensures
        booking_check(o.uuid, Ok(Some(o))) == Ok::<HotelOrder, HotelBookingServiceError>(o),
        cancel_check(o.uuid, Ok(Some(with_status(o, OrderStatus::Ongoing)))) == Ok::<
            HotelOrder,
            HotelBookingServiceError,
        >(with_status(o, OrderStatus::Ongoing)),
        booking_check(
            o.uuid,
            Ok(Some(with_status(with_status(o, OrderStatus::Ongoing), OrderStatus::Cancelled))),
        ) == Err::<HotelOrder, _>(
            HotelBookingServiceError::InvalidOrderStatus(o.uuid, OrderStatus::Cancelled),
        ),
{
}

proof fn lemma_occupied_on_concat(a: Seq<OccupiedRoom>, b: Seq<OccupiedRoom>, rt: u64, d: int)
    ensures
        occupied_on(a + b, rt, d) == occupied_on(a, rt, d) + occupied_on(b, rt, d),
    decreases b.len(),
{
    if b.len() == 0 {
        assert(a + b =~= a);
    } else {
        assert((a + b).drop_last() =~= a + b.drop_last());
        assert((a + b).last() == b.last());
        lemma_occupied_on_concat(a, b.drop_last(), rt, d);
    }
}

proof fn lemma_occupied_on_copies(o: HotelOrder, n: nat, rt: u64, d: int)
    ensures
        occupied_on(Seq::new(n, |k: int| room_for(o)), rt, d) == if holds_night(room_for(o), rt, d) {
            n
        } else {
            0
        },
    decreases n,
{
    if n > 0 {
        let s = Seq::new(n, |k: int| room_for(o));
        assert(s.drop_last() =~= Seq::new((n - 1) as nat, |k: int| room_for(o)));
        lemma_occupied_on_copies(o, (n - 1) as nat, rt, d);
    }
}

/// A booking holds its rooms on every night of its stay and on no other
/// day: with the booked rooms added, the rooms of the order's type held on a
/// night of the stay grow by the number of rooms booked, and nothing else
/// changes.
pub proof fn law_booking_holds_its_nights(rooms: Seq<OccupiedRoom>, o: HotelOrder, rt: u64, d: int)
    ensures
        occupied_on(rooms + booked_rooms(o), rt, d) == occupied_on(rooms, rt, d) + if rt == o.room_id
            && o.booking_date_range.begin_date <= d < o.booking_date_range.end_date {
            booked_rooms(o).len()
        } else {
            0
        },
{
    lemma_occupied_on_concat(rooms, booked_rooms(o), rt, d);
    let n: nat = if rooms_asked(o) > 0 {
        rooms_asked(o) as nat
    } else {
        0
    };
    lemma_occupied_on_copies(o, n, rt, d);
}

proof fn lemma_max_occupied_covers(rooms: Seq<OccupiedRoom>, rt: u64, b: int, e: int, d: int)
    requires
        b <= d <= e,
    ensures
        occupied_on(rooms, rt, d) <= max_occupied(rooms, rt, b, e),
    decreases e - b,
{
    if d < e {
        lemma_max_occupied_covers(rooms, rt, b, e - 1, d);
    }
}

/// A booking accepted against the rooms left over its stay never overbooks:
/// when no day of the stay was over capacity before, then with its rooms
/// added no day of the stay holds more rooms of its type than the type's
/// capacity.
pub proof fn law_no_overbooking(rooms: Seq<OccupiedRoom>, o: HotelOrder, capacity: int, d: int)
    requires
        max_occupied(
            rooms,
            o.room_id,
            o.booking_date_range.begin_date as int,
            o.booking_date_range.end_date as int,
        ) <= capacity,
        rooms_asked(o) <= capacity - max_occupied(
            rooms,
            o.room_id,
            o.booking_date_range.begin_date as int,
            o.booking_date_range.end_date as int,
        ),
        o.booking_date_range.begin_date <= d <= o.booking_date_range.end_date,
    ensures
        occupied_on(rooms + booked_rooms(o), o.room_id, d) <= capacity,
{
    law_booking_holds_its_nights(rooms, o, o.room_id, d);
    lemma_max_occupied_covers(
        rooms,
        o.room_id,
        o.booking_date_range.begin_date as int,
        o.booking_date_range.end_date as int,
        d,
    );
}

} // verus!
