//! Train ticket bookings: which orders may be booked or cancelled, which
//! seat a booking asks for, and how a group of bookings ends.
use std::sync::Arc;
use vstd::prelude::*;

use crate::domain::{OrderStatus, RepositoryError, ServiceError};
use crate::train_seat::{Seat, SeatLocationInfo, TrainSeatServiceError};

verus! {

/// An order for a train ticket between two stations of a schedule.
#[derive(Debug, Clone)]
pub struct TrainOrder {
    pub uuid: u128,
    pub order_status: OrderStatus,
    pub train_schedule_id: u64,
    pub from_station_id: u64,
    pub to_station_id: u64,
    pub seat_type_name: String,
    pub preferred_seat_location: Option<char>,
    pub personal_info_id: u64,
    pub seat: Option<Seat>,
}

/// Errors of the train booking service.
#[derive(Debug, Clone, PartialEq, Eq)]
pub enum TrainBookingServiceError {
    InfrastructureError(ServiceError),
    InvalidOrder(u128),
    InvalidOrderStatus(u128, OrderStatus),
    NoAvailableTickets(u128),
}

/// The order found for a booking request, if it exists and is paid.
pub open spec fn ticket_booking_check(order_uuid: u128, found: Result<Option<TrainOrder>, RepositoryError>) -> Result<
    TrainOrder,
    TrainBookingServiceError,
> {
    match found {
        Err(e) => Err(TrainBookingServiceError::InfrastructureError(ServiceError::RepositoryError(e))),
        Ok(None) => Err(TrainBookingServiceError::InvalidOrder(order_uuid)),
        Ok(Some(o)) => if o.order_status != OrderStatus::Paid {
            Err(TrainBookingServiceError::InvalidOrderStatus(order_uuid, o.order_status))
        } else {
            Ok(o)
        },
    }
}

/// An order in this status may be cancelled.
pub open spec fn cancellable(s: OrderStatus) -> bool {
    s == OrderStatus::Unpaid || s == OrderStatus::Paid || s == OrderStatus::Ongoing
}

/// What a cancel request does with the order found: refuses it, or cancels
/// it, freeing its seat first when it is ongoing (`true`). `None` when the
/// order is ongoing but holds no seat, which the store should never hold.
pub open spec fn ticket_cancel_check(order_uuid: u128, found: Result<Option<TrainOrder>, RepositoryError>) -> Option<
    Result<(TrainOrder, bool), TrainBookingServiceError>,
> {
    match found {
        Err(e) => Some(Err(TrainBookingServiceError::InfrastructureError(ServiceError::RepositoryError(e)))),
        Ok(None) => Some(Err(TrainBookingServiceError::InvalidOrder(order_uuid))),
        Ok(Some(o)) => if !cancellable(o.order_status) {
            Some(Err(TrainBookingServiceError::InvalidOrderStatus(order_uuid, o.order_status)))
        } else if o.order_status == OrderStatus::Ongoing {
            if o.seat is Some {
                Some(Ok((o, true)))
            } else {
                None
            }
        } else {
            Some(Ok((o, false)))
        },
    }
}

/// The error for an ongoing order that holds no seat.
pub open spec fn is_missing_seat_error(e: TrainBookingServiceError) -> bool {
    e matches TrainBookingServiceError::InfrastructureError(ServiceError::RelatedServiceError(m)) && m@
        == "Seat information is missing"@
}

/// Checks the order found for a booking request: it must exist and be paid.
pub fn check_ticket_order(order_uuid: u128, found: Result<Option<TrainOrder>, RepositoryError>) -> (r: Result<
    TrainOrder,
    TrainBookingServiceError,
>)
    ensures
        r == ticket_booking_check(order_uuid, found),
{
    match found {
        Err(e) => Err(TrainBookingServiceError::InfrastructureError(ServiceError::RepositoryError(e))),
        Ok(None) => Err(TrainBookingServiceError::InvalidOrder(order_uuid)),
        Ok(Some(o)) => {
            if o.order_status != OrderStatus::Paid {
                Err(TrainBookingServiceError::InvalidOrderStatus(order_uuid, o.order_status))
            } else {
                Ok(o)
            }
        },
    }
}

/// Checks the order found for a cancel request; the flag says whether its
/// seat is to be freed before it is cancelled.
pub fn check_ticket_cancel(order_uuid: u128, found: Result<Option<TrainOrder>, RepositoryError>) -> (r: Result<
    (TrainOrder, bool),
    TrainBookingServiceError,
>)
    ensures
        match ticket_cancel_check(order_uuid, found) {
            Some(x) => r == x,
            None => r matches Err(e) && is_missing_seat_error(e),
        },
{
    match found {
        Err(e) => Err(TrainBookingServiceError::InfrastructureError(ServiceError::RepositoryError(e))),
        Ok(None) => Err(TrainBookingServiceError::InvalidOrder(order_uuid)),
        Ok(Some(o)) => {
            let s = o.order_status;
            if !(s == OrderStatus::Unpaid || s == OrderStatus::Paid || s == OrderStatus::Ongoing) {
                Err(TrainBookingServiceError::InvalidOrderStatus(order_uuid, s))
            } else if s == OrderStatus::Ongoing {
                if o.seat.is_some() {
                    Ok((o, true))
                } else {
                    Err(
                        TrainBookingServiceError::InfrastructureError(
                            ServiceError::RelatedServiceError("Seat information is missing".to_owned()),
                        ),
                    )
                }
            } else {
                Ok((o, false))
            }
        },
    }
}

/// The seats of the list that are not taken on the order's stretch, in order.
pub open spec fn free_seats(seats: Seq<(i64, SeatLocationInfo)>, occupied: Seq<i64>) -> Seq<(i64, SeatLocationInfo)>
    decreases seats.len(),
{
    if seats.len() == 0 {
        Seq::empty()
    } else if occupied.contains(seats.last().0) {
        free_seats(seats.drop_last(), occupied)
    } else {
        free_seats(seats.drop_last(), occupied).push(seats.last())
    }
}

/// Index of the first seat of `free` at place letter `c`, or -1.
pub open spec fn first_at(free: Seq<(i64, SeatLocationInfo)>, c: char) -> int
    decreases free.len(),
{
    if free.len() == 0 {
        -1
    } else if first_at(free.drop_last(), c) >= 0 {
        first_at(free.drop_last(), c)
    } else if free.last().1.location == c {
        free.len() - 1
    } else {
        -1
    }
}

/// The seat a booking asks for: none when every seat is taken; else the
/// first free seat at the preferred place letter, or the first free seat
/// when there is no preference or no free seat matches it.
pub open spec fn seat_choice(
    seats: Seq<(i64, SeatLocationInfo)>,
    occupied: Seq<i64>,
    preferred: Option<char>,
) -> Option<(i64, SeatLocationInfo)> {
    let free = free_seats(seats, occupied);
    if free.len() == 0 {
        None
    } else {
        match preferred {
            Some(c) => if first_at(free, c) >= 0 {
                Some(free[first_at(free, c)])
            } else {
                Some(free[0])
            },
            None => Some(free[0]),
        }
    }
}

proof fn lemma_first_at(free: Seq<(i64, SeatLocationInfo)>, c: char)
    ensures
        -1 <= first_at(free, c) < free.len(),
    decreases free.len(),
{
    if free.len() > 0 {
        lemma_first_at(free.drop_last(), c);
    }
}

fn contains_seat_id(v: &Vec<i64>, id: i64) -> (b: bool)
    ensures
        b == v@.contains(id),
{
    let mut k: usize = 0;
    while k < v.len()
        invariant
            k <= v@.len(),
            forall|t: int| 0 <= t < k ==> v@[t] != id,
        decreases v@.len() - k,
    {
        if v[k] == id {
            return true;
        }
        k += 1;
    }
    false
}

/// Chooses the seat to ask for, among the seats of the ordered seat type and
/// the seats taken on the order's stretch.
pub fn select_seat(
    seat_locations: &Vec<(i64, SeatLocationInfo)>,
    occupied_seats: &Vec<i64>,
    preferred_location: Option<char>,
) -> (r: Option<(i64, SeatLocationInfo)>)
    ensures
        r == seat_choice(seat_locations@, occupied_seats@, preferred_location),
{
    let mut free: Vec<(i64, SeatLocationInfo)> = Vec::new();
    let mut i: usize = 0;
    while i < seat_locations.len()
        invariant
            i <= seat_locations@.len(),
            free@ == free_seats(seat_locations@.take(i as int), occupied_seats@),
        decreases seat_locations@.len() - i,
    {
        proof {
            assert(seat_locations@.take(i + 1).drop_last() =~= seat_locations@.take(i as int));
            assert(seat_locations@.take(i + 1).last() == seat_locations@[i as int]);
        }
        let e = seat_locations[i];
        if !contains_seat_id(occupied_seats, e.0) {
            free.push(e);
        }
        i += 1;
    }
    proof {
        assert(seat_locations@.take(i as int) =~= seat_locations@);
    }
    if free.len() == 0 {
        return None;
    }
    match preferred_location {
        None => Some(free[0]),
        Some(c) => {
            let mut k: usize = 0;
            while k < free.len()
                invariant
                    k <= free@.len(),
                    free@.len() > 0,
                    preferred_location == Some(c),
                    free@ == free_seats(seat_locations@, occupied_seats@),
                    first_at(free@.take(k as int), c) == -1,
                decreases free@.len() - k,
            {
                proof {
                    assert(free@.take(k + 1).drop_last() =~= free@.take(k as int));
                    assert(free@.take(k + 1).last() == free@[k as int]);
                }
                if free[k].1.location == c {
                    proof {
                        assert(first_at(free@.take(k + 1), c) == k);
                        lemma_first_at_prefix(free@, c, k + 1);
                        assert(free@ == free_seats(seat_locations@, occupied_seats@));
                    }
                    return Some(free[k]);
                }
                k += 1;
            }
            proof {
                assert(free@.take(k as int) =~= free@);
            }
            Some(free[0])
        },
    }
}

proof fn lemma_first_at_prefix(free: Seq<(i64, SeatLocationInfo)>, c: char, n: int)
    requires
        0 <= n <= free.len(),
        first_at(free.take(n), c) >= 0,
    ensures
        first_at(free, c) == first_at(free.take(n), c),
    decreases free.len(),
{
    if free.len() > n {
        assert(free.drop_last().take(n) =~= free.take(n));
        lemma_first_at_prefix(free.drop_last(), c, n);
    } else {
        assert(free.take(n) =~= free);
    }
}

/// The order once booked: ongoing, holding the seat reserved for it.
pub fn booked_order(order: &TrainOrder, seat: Seat) -> (r: TrainOrder)
    ensures
        r.order_status == OrderStatus::Ongoing,
        r.seat == Some(seat),
        r.uuid == order.uuid,
        r.train_schedule_id == order.train_schedule_id,
        r.from_station_id == order.from_station_id,
        r.to_station_id == order.to_station_id,
        r.seat_type_name@ == order.seat_type_name@,
        r.preferred_seat_location == order.preferred_seat_location,
        r.personal_info_id == order.personal_info_id,
{
    TrainOrder {
        uuid: order.uuid,
        order_status: OrderStatus::Ongoing,
        train_schedule_id: order.train_schedule_id,
        from_station_id: order.from_station_id,
        to_station_id: order.to_station_id,
        seat_type_name: order.seat_type_name.clone(),
        preferred_seat_location: order.preferred_seat_location,
        personal_info_id: order.personal_info_id,
        seat: Some(seat),
    }
}

/// `r` is `order` once booked with `seat`: ongoing, holding the seat, all
/// else unchanged.
pub open spec fn booked_with(r: TrainOrder, order: TrainOrder, seat: Seat) -> bool {
    &&& r.order_status == OrderStatus::Ongoing
    &&& r.seat == Some(seat)
    &&& r.uuid == order.uuid
    &&& r.train_schedule_id == order.train_schedule_id
    &&& r.from_station_id == order.from_station_id
    &&& r.to_station_id == order.to_station_id
    &&& r.seat_type_name@ == order.seat_type_name@
    &&& r.preferred_seat_location == order.preferred_seat_location
    &&& r.personal_info_id == order.personal_info_id
}

/// The seat to reserve for a booking: the choice among the free seats of
/// the seat type; `NoAvailableTickets` when every seat is taken on the
/// order's stretch.
pub fn choose_seat_for(
    order_uuid: u128,
    seat_locations: &Vec<(i64, SeatLocationInfo)>,
    occupied_seats: &Vec<i64>,
    preferred_location: Option<char>,
) -> (r: Result<(i64, SeatLocationInfo), TrainBookingServiceError>)
    ensures
        match seat_choice(seat_locations@, occupied_seats@, preferred_location) {
            None => r == Err::<(i64, SeatLocationInfo), _>(TrainBookingServiceError::NoAvailableTickets(order_uuid)),
            Some(x) => r == Ok::<(i64, SeatLocationInfo), TrainBookingServiceError>(x),
        },
{
    match select_seat(seat_locations, occupied_seats, preferred_location) {
        None => Err(TrainBookingServiceError::NoAvailableTickets(order_uuid)),
        Some(x) => Ok(x),
    }
}

/// The outcome of a booking once the seat service answered the
/// reservation: the booked order; `NoAvailableTickets` when the seat was
/// taken meanwhile; any other failure of the seat service is reported as a
/// failed reservation.
pub fn reservation_outcome(
    order_uuid: u128,
    order: &TrainOrder,
    reserved: Result<Seat, TrainSeatServiceError>,
) -> (r: Result<TrainOrder, TrainBookingServiceError>)
    ensures
        match reserved {
            Ok(seat) => r matches Ok(o) && booked_with(o, *order, seat),
            Err(TrainSeatServiceError::NoAvailableSeat) => r == Err::<TrainOrder, _>(
                TrainBookingServiceError::NoAvailableTickets(order_uuid),
            ),
            Err(_) => r matches Err(
                TrainBookingServiceError::InfrastructureError(ServiceError::RelatedServiceError(m)),
            ) && m@ == "Seat reservation failed"@,
        },
{
    match reserved {
        Ok(seat) => Ok(booked_order(order, seat)),
        Err(TrainSeatServiceError::NoAvailableSeat) => Err(TrainBookingServiceError::NoAvailableTickets(order_uuid)),
        Err(_) => Err(
            TrainBookingServiceError::InfrastructureError(
                ServiceError::RelatedServiceError("Seat reservation failed".to_owned()),
            ),
        ),
    }
}

/// The order written back by a cancel request that went through: the same
/// order, cancelled.
pub fn cancelled_ticket(order: TrainOrder) -> (r: TrainOrder)
    ensures
        r == (TrainOrder { order_status: OrderStatus::Cancelled, ..order }),
{
    TrainOrder { order_status: OrderStatus::Cancelled, ..order }
}

/// What a group booking does after one order.
#[derive(Debug, Clone, PartialEq, Eq)]
pub enum GroupStep {
    /// Go on with the next order.
    Continue,
    /// Stop: cancel these booked orders and fail the group.
    Abort(Vec<u128>),
}

/// Progress of a group of ticket bookings.
pub struct TicketGroup {
    pub succeeded: Vec<u128>,
    pub failed: Vec<u128>,
}

impl TicketGroup {
    /// No order tried yet.
    pub fn new() -> (g: Self)
        ensures
            g.succeeded@ == Seq::<u128>::empty(),
            g.failed@ == Seq::<u128>::empty(),
    {
        TicketGroup { succeeded: Vec::new(), failed: Vec::new() }
    }

    /// Records whether booking `order_uuid` went through. After a failure an
    /// atomic group stops and cancels every order booked so far; any other
    /// group goes on.
    pub fn record(&mut self, order_uuid: u128, booked: bool, atomic: bool) -> (step: GroupStep)
        ensures
            booked ==> final(self).succeeded@ == old(self).succeeded@.push(order_uuid)
                && final(self).failed@ == old(self).failed@ && step == GroupStep::Continue,
            !booked ==> final(self).failed@ == old(self).failed@.push(order_uuid)
                && final(self).succeeded@ == old(self).succeeded@,
            !booked && atomic ==> (step matches GroupStep::Abort(c) && c@ == old(self).succeeded@),
            !booked && !atomic ==> step == GroupStep::Continue,
    {
        if booked {
            self.succeeded.push(order_uuid);
            GroupStep::Continue
        } else {
            self.failed.push(order_uuid);
            if atomic {
                GroupStep::Abort(self.succeeded.clone())
            } else {
                GroupStep::Continue
            }
        }
    }
}

/// The train booking service; the repositories and the other services are
/// reached by the caller.
pub struct TrainBookingServiceImpl<TSR, TSS, TRR, OR, SAR, TTCS> {
    pub train_schedule_repository: Arc<TSR>,
    pub train_seat_service: Arc<TSS>,
    pub train_repository: Arc<TRR>,
    pub order_repository: Arc<OR>,
    pub seat_availability_repository: Arc<SAR>,
    pub train_type_configuration_service: Arc<TTCS>,
}

impl<TSR, TSS, TRR, OR, SAR, TTCS> TrainBookingServiceImpl<TSR, TSS, TRR, OR, SAR, TTCS> {
    /// A service over its repositories and services.
    pub fn new(
        train_schedule_repository: Arc<TSR>,
        train_seat_service: Arc<TSS>,
        train_repository: Arc<TRR>,
        order_repository: Arc<OR>,
        seat_availability_repository: Arc<SAR>,
        train_type_configuration_service: Arc<TTCS>,
    ) -> (s: Self)
        ensures
            s.train_schedule_repository == train_schedule_repository,
            s.train_seat_service == train_seat_service,
            s.train_repository == train_repository,
            s.order_repository == order_repository,
            s.seat_availability_repository == seat_availability_repository,
            s.train_type_configuration_service == train_type_configuration_service,
    {
        Self {
            train_schedule_repository,
            train_seat_service,
            train_repository,
            order_repository,
            seat_availability_repository,
            train_type_configuration_service,
        }
    }
}

/// An order that passes the booking check, once booked (ongoing, with its
/// seat), is accepted by a cancel request, which frees that seat; a paid
/// order not booked yet is cancelled without freeing anything; a booked order
/// is refused by a new booking request.
pub proof fn law_booked_ticket_can_be_cancelled(order_uuid: u128, o: TrainOrder, seat: Seat, booked: TrainOrder)
    requires
        ticket_booking_check(order_uuid, Ok(Some(o))) is Ok,
        booked.order_status == OrderStatus::Ongoing,
        booked.seat == Some(seat),
    ensures
        o.order_status == OrderStatus::Paid,
        ticket_cancel_check(order_uuid, Ok(Some(booked))) == Some(
            Ok::<(TrainOrder, bool), TrainBookingServiceError>((booked, true)),
        ),
        ticket_cancel_check(order_uuid, Ok(Some(o))) == Some(
            Ok::<(TrainOrder, bool), TrainBookingServiceError>((o, false)),
        ),
        ticket_booking_check(order_uuid, Ok(Some(booked))) == Err::<TrainOrder, _>(
            TrainBookingServiceError::InvalidOrderStatus(order_uuid, OrderStatus::Ongoing),
        ),
{
}

/// The seat chosen for a booking is one of the seats of the seat type, and
/// is not taken on the order's stretch.
pub proof fn law_chosen_seat_is_free(
    seats: Seq<(i64, SeatLocationInfo)>,
    occupied: Seq<i64>,
    preferred: Option<char>,
)
    ensures
        (seat_choice(seats, occupied, preferred) matches Some(x) ==> seats.contains(x) && !occupied.contains(x.0)),
        seat_choice(seats, occupied, preferred) is None <==> forall|k: int|
            0 <= k < seats.len() ==> occupied.contains(#[trigger] seats[k].0),
{
    lemma_free_seats(seats, occupied);
    lemma_first_at(free_seats(seats, occupied), preferred.unwrap_or(' '));
    if let Some(c) = preferred {
        lemma_first_at(free_seats(seats, occupied), c);
    }
}

proof fn lemma_free_seats(seats: Seq<(i64, SeatLocationInfo)>, occupied: Seq<i64>)
    ensures
        forall|k: int|
            0 <= k < free_seats(seats, occupied).len() ==> seats.contains(#[trigger] free_seats(seats, occupied)[k])
                && !occupied.contains(free_seats(seats, occupied)[k].0),
        free_seats(seats, occupied).len() == 0 <==> forall|k: int|
            0 <= k < seats.len() ==> occupied.contains(#[trigger] seats[k].0),
    decreases seats.len(),
{
    if seats.len() > 0 {
        let d = seats.drop_last();
        lemma_free_seats(d, occupied);
        let f = free_seats(seats, occupied);
        assert forall|k: int| 0 <= k < f.len() implies seats.contains(#[trigger] f[k]) && !occupied.contains(
            f[k].0,
        ) by {
            if k < free_seats(d, occupied).len() {
                assert(f[k] == free_seats(d, occupied)[k]);
                let j = choose|j: int| 0 <= j < d.len() && d[j] == f[k];
                assert(seats[j] == f[k]);
            } else {
                assert(f[k] == seats[seats.len() - 1]);
            }
        }
        if f.len() == 0 {
            assert forall|k: int| 0 <= k < seats.len() implies occupied.contains(#[trigger] seats[k].0) by {
                if k < d.len() {
                    assert(d[k] == seats[k]);
                }
            }
        }
        if forall|k: int| 0 <= k < seats.len() ==> occupied.contains(#[trigger] seats[k].0) {
            assert(occupied.contains(seats[seats.len() - 1].0));
            assert forall|k: int| 0 <= k < d.len() implies occupied.contains(#[trigger] d[k].0) by {
                assert(d[k] == seats[k]);
            }
        }
    }
}

} // verus!
