//! Hotels: room availability over a stay, minimum prices, bookings.
//!
//! Dates are day numbers. An occupied room holds its room type on the nights
//! `begin <= d < end`. Over a requested stay `[begin, end]` (both ends
//! included) a room type is as occupied as on its busiest day.
use std::sync::Arc;
use vstd::prelude::*;

use crate::domain::{OrderStatus, RepositoryError};
use crate::money::{amount_less_than, amount_lt, amount_ok, zero, zero_amount, Amount};

verus! {

/// A stay, as day numbers.
#[derive(Debug, Clone, Copy, PartialEq, Eq)]
pub struct HotelDateRange {
    pub begin_date: i32,
    pub end_date: i32,
}

/// A kind of room of a hotel.
#[derive(Debug, Clone)]
pub struct HotelRoomType {
    pub id: Option<u64>,
    pub hotel_id: Option<u64>,
    pub room_type_name: String,
    pub capacity: i32,
    pub price: Amount,
}

/// A hotel and its room types.
#[derive(Debug, Clone)]
pub struct Hotel {
    pub id: Option<u64>,
    pub uuid: u128,
    pub name: String,
    pub images: Vec<u128>,
    pub total_rating_count: i32,
    pub total_booking_count: i32,
    pub room_type_list: Vec<HotelRoomType>,
    pub info: String,
}

/// A room held for a stay.
#[derive(Debug, Clone, Copy, PartialEq, Eq)]
pub struct OccupiedRoom {
    pub id: Option<u64>,
    pub hotel_id: u64,
    pub hotel_room_type_id: u64,
    pub booking_date_range: HotelDateRange,
    pub personal_info_id: u64,
}

/// Capacity, rooms left and price of a room type over a stay.
#[derive(Debug, Clone, Copy, PartialEq, Eq)]
pub struct HotelRoomStatus {
    pub capacity: i32,
    pub remain_count: i32,
    pub price: Amount,
}

/// Errors of the hotel booking service.
#[derive(Debug, Clone, PartialEq, Eq)]
pub enum HotelBookingServiceError {
    InfrastructureError(RepositoryError),
    InvalidHotelId(u64),
    InvalidOrder(u128),
    InvalidOrderStatus(u128, OrderStatus),
    NoAvailableRoom(u128),
}

/// Room `r` holds room type `rt` on night `d`.
pub open spec fn holds_night(r: OccupiedRoom, rt: u64, d: int) -> bool {
    r.hotel_room_type_id == rt && r.booking_date_range.begin_date <= d
        < r.booking_date_range.end_date
}

/// Number of rooms of type `rt` held on night `d`.
pub open spec fn occupied_on(rooms: Seq<OccupiedRoom>, rt: u64, d: int) -> nat
    decreases rooms.len(),
{
    if rooms.len() == 0 {
        0
    } else {
        occupied_on(rooms.drop_last(), rt, d) + if holds_night(rooms.last(), rt, d) {
            1nat
        } else {
            0nat
        }
    }
}

/// Largest number of rooms of type `rt` held on one day of `[b, e]` (0 if none).
pub open spec fn max_occupied(rooms: Seq<OccupiedRoom>, rt: u64, b: int, e: int) -> nat
    decreases (if e < b {
        0
    } else {
        e - b + 1
    }),
{
    if e < b {
        0
    } else {
        let prev = max_occupied(rooms, rt, b, e - 1);
        let cur = occupied_on(rooms, rt, e);
        if prev >= cur {
            prev
        } else {
            cur
        }
    }
}

proof fn lemma_occupied_on_bound(rooms: Seq<OccupiedRoom>, rt: u64, d: int)
    ensures
        occupied_on(rooms, rt, d) <= rooms.len(),
    decreases rooms.len(),
{
    if rooms.len() > 0 {
        lemma_occupied_on_bound(rooms.drop_last(), rt, d);
    }
}

proof fn lemma_max_occupied_bound(rooms: Seq<OccupiedRoom>, rt: u64, b: int, e: int)
    ensures
        max_occupied(rooms, rt, b, e) <= rooms.len(),
    decreases (if e < b {
        0
    } else {
        e - b + 1
    }),
{
    if e >= b {
        lemma_max_occupied_bound(rooms, rt, b, e - 1);
        lemma_occupied_on_bound(rooms, rt, e);
    }
}

/// Number of rooms of type `rt` held on night `d`.
pub fn occupied_count_on(rooms: &Vec<OccupiedRoom>, rt: u64, d: i32) -> (c: i32)
    requires
        rooms@.len() <= i32::MAX,
    ensures
        c == occupied_on(rooms@, rt, d as int),
{
    let mut c: i32 = 0;
    let mut i: usize = 0;
    while i < rooms.len()
        invariant
            i <= rooms@.len() <= i32::MAX,
            c == occupied_on(rooms@.take(i as int), rt, d as int),
        decreases rooms@.len() - i,
    {
        proof {
            assert(rooms@.take(i + 1).drop_last() =~= rooms@.take(i as int));
            lemma_occupied_on_bound(rooms@.take(i as int), rt, d as int);
        }
        let r = rooms[i];
        if r.hotel_room_type_id == rt && r.booking_date_range.begin_date <= d && d
            < r.booking_date_range.end_date {
            c = c + 1;
        }
        i += 1;
    }
    proof {
        assert(rooms@.take(i as int) =~= rooms@);
    }
    c
}

/// Largest number of rooms of type `rt` held on one day of the stay (both ends included).
pub fn max_occupied_count(rooms: &Vec<OccupiedRoom>, rt: u64, range: HotelDateRange) -> (c: i32)
    requires
        rooms@.len() <= i32::MAX,
    ensures
        c == max_occupied(rooms@, rt, range.begin_date as int, range.end_date as int),
{
    let b = range.begin_date;
    let e = range.end_date;
    let mut best: i32 = 0;
    if e < b {
        return 0;
    }
    let mut d: i64 = b as i64;
    while d <= e as i64
        invariant
            rooms@.len() <= i32::MAX,
            b <= e,
            b <= d <= e + 1,
            best == max_occupied(rooms@, rt, b as int, d - 1),
        decreases e - d + 1,
    {
        let cur = occupied_count_on(rooms, rt, d as i32);
        if cur > best {
            best = cur;
        }
        d += 1;
    }
    best
}

/// Index of the last room type with id `id`, or -1.
pub open spec fn last_with_id(types: Seq<HotelRoomType>, id: u64) -> int
    decreases types.len(),
{
    if types.len() == 0 {
        -1
    } else if types.last().id == Some(id) {
        types.len() - 1
    } else {
        last_with_id(types.drop_last(), id)
    }
}

proof fn lemma_last_with_id(types: Seq<HotelRoomType>, id: u64)
    ensures
        -1 <= last_with_id(types, id) < types.len(),
        last_with_id(types, id) >= 0 ==> types[last_with_id(types, id)].id == Some(id),
        last_with_id(types, id) == -1 <==> forall|t: int| 0 <= t < types.len() ==> types[t].id != Some(id),
        forall|t: int| last_with_id(types, id) < t < types.len() ==> types[t].id != Some(id),
    decreases types.len(),
{
    if types.len() > 0 {
        lemma_last_with_id(types.drop_last(), id);
        if types.last().id != Some(id) {
            assert forall|t: int| 0 <= t < types.len() - 1 implies types[t] == types.drop_last()[t] by {}
        }
    }
}

/// The status that a room type has over a stay.
pub open spec fn status_of(t: HotelRoomType, rooms: Seq<OccupiedRoom>, rt: u64, range: HotelDateRange) -> HotelRoomStatus {
    HotelRoomStatus {
        capacity: t.capacity,
        remain_count: (t.capacity - max_occupied(
            rooms,
            rt,
            range.begin_date as int,
            range.end_date as int,
        )) as i32,
        price: t.price,
    }
}

/// Some room type of `types` has id `id`.
pub open spec fn has_type_id(types: Seq<HotelRoomType>, id: u64) -> bool {
    exists|t: int| 0 <= t < types.len() && types[t].id == Some(id)
}

/// Some entry of `v` is for room type `id`.
pub open spec fn lists_type_id(v: Seq<(u64, HotelRoomStatus)>, id: u64) -> bool {
    exists|i: int| 0 <= i < v.len() && v[i].0 == id
}

/// No room type id occurs twice.
pub open spec fn ids_distinct(v: Seq<(u64, HotelRoomStatus)>) -> bool {
    forall|i: int, j: int| 0 <= i < v.len() && 0 <= j < v.len() && i != j ==> v[i].0 != v[j].0
}

/// `v` lists every room type of `types` once, with its status over the stay;
/// for an id given to several room types the last one counts.
pub open spec fn availability_of(
    v: Seq<(u64, HotelRoomStatus)>,
    types: Seq<HotelRoomType>,
    rooms: Seq<OccupiedRoom>,
    range: HotelDateRange,
) -> bool {
    &&& ids_distinct(v)
    &&& forall|id: u64|
        #![trigger has_type_id(types, id)]
        #![trigger lists_type_id(v, id)]
        has_type_id(types, id) <==> lists_type_id(v, id)
    &&& forall|i: int|
        #![trigger v[i]]
        0 <= i < v.len() ==> v[i].1 == status_of(types[last_with_id(types, v[i].0)], rooms, v[i].0, range)
}

/// Every room type has an id and is never over-occupied during the stay.
pub open spec fn availability_inputs_ok(
    types: Seq<HotelRoomType>,
    rooms: Seq<OccupiedRoom>,
    range: HotelDateRange,
) -> bool {
    &&& rooms.len() <= i32::MAX
    &&& forall|t: int| #![trigger types[t]] 0 <= t < types.len() ==> types[t].id is Some
    &&& forall|t: int|
        #![trigger types[t]]
        0 <= t < types.len() ==> max_occupied(
            rooms,
            types[t].id->0,
            range.begin_date as int,
            range.end_date as int,
        ) <= types[last_with_id(types, types[t].id->0)].capacity
}

fn find_status(v: &Vec<(u64, HotelRoomStatus)>, id: u64) -> (r: Option<usize>)
    ensures
        match r {
            Some(i) => i < v@.len() && v@[i as int].0 == id,
            None => forall|i: int| 0 <= i < v@.len() ==> v@[i].0 != id,
        },
{
    let mut i: usize = 0;
    while i < v.len()
        invariant
            i <= v@.len(),
            forall|t: int| 0 <= t < i ==> v@[t].0 != id,
        decreases v@.len() - i,
    {
        if v[i].0 == id {
            return Some(i);
        }
        i += 1;
    }
    None
}

/// Status of every room type of a hotel that has an id, over a stay.
pub fn room_availability(
    types: &Vec<HotelRoomType>,
    rooms: &Vec<OccupiedRoom>,
    range: HotelDateRange,
) -> (v: Vec<(u64, HotelRoomStatus)>)
    requires
        rooms@.len() <= i32::MAX,
    ensures
        availability_of(v@, types@, rooms@, range),
{
    let mut v: Vec<(u64, HotelRoomStatus)> = Vec::new();
    let mut i: usize = 0;
    while i < types.len()
        invariant
            rooms@.len() <= i32::MAX,
            i <= types@.len(),
            ids_distinct(v@),
            forall|id: u64|
                #![trigger has_type_id(types@.take(i as int), id)]
                #![trigger lists_type_id(v@, id)]
                has_type_id(types@.take(i as int), id) <==> lists_type_id(v@, id),
            forall|k: int|
                #![trigger v@[k]]
                0 <= k < v@.len() ==> v@[k].1 == status_of(
                    types@.take(i as int)[last_with_id(types@.take(i as int), v@[k].0)],
                    rooms@,
                    v@[k].0,
                    range,
                ),
        decreases types@.len() - i,
    {
        let t = &types[i];
        let pre = Ghost(types@.take(i as int));
        let cur = Ghost(types@.take(i + 1));
        proof {
            assert(cur@.drop_last() =~= pre@);
            assert(cur@.last() == types@[i as int]);
        }
        let id = match t.id {
            Some(id) => id,
            None => {
                proof {
                    assert forall|id2: u64|
                        #![trigger has_type_id(cur@, id2)]
                        #![trigger lists_type_id(v@, id2)]
                        has_type_id(cur@, id2) <==> lists_type_id(v@, id2) by {
                        if has_type_id(cur@, id2) {
                            let t2 = choose|t2: int| 0 <= t2 < cur@.len() && cur@[t2].id == Some(id2);
                            assert(pre@[t2] == cur@[t2]);
                            assert(has_type_id(pre@, id2));
                        }
                        if has_type_id(pre@, id2) {
                            let t2 = choose|t2: int| 0 <= t2 < pre@.len() && pre@[t2].id == Some(id2);
                            assert(pre@[t2] == cur@[t2]);
                        }
                    }
                    assert forall|k: int|
                        #![trigger v@[k]]
                        0 <= k < v@.len() implies v@[k].1 == status_of(
                        cur@[last_with_id(cur@, v@[k].0)],
                        rooms@,
                        v@[k].0,
                        range,
                    ) by {
                        assert(lists_type_id(v@, v@[k].0));
                        assert(has_type_id(pre@, v@[k].0));
                        lemma_last_with_id(pre@, v@[k].0);
                        assert(last_with_id(cur@, v@[k].0) == last_with_id(pre@, v@[k].0));
                    }
                }
                i += 1;
                continue;
            },
        };
        let occupied = max_occupied_count(rooms, id, range);
        let status = HotelRoomStatus {
            capacity: t.capacity,
            remain_count: (t.capacity as i64 - occupied as i64) as i32,
            price: t.price,
        };
        let ghost v0 = v@;
        let ghost mut pos: int = 0;
        match find_status(&v, id) {
            Some(k) => {
                v.set(k, (id, status));
                proof {
                    pos = k as int;
                }
            },
            None => {
                v.push((id, status));
                proof {
                    pos = v0.len() as int;
                }
            },
        }
        assert(v@[pos].0 == id);
        proof {
            assert(last_with_id(cur@, id) == i);
            assert forall|id2: u64|
                #![trigger has_type_id(cur@, id2)]
                #![trigger lists_type_id(v@, id2)]
                has_type_id(cur@, id2) <==> lists_type_id(v@, id2) by {
                if has_type_id(cur@, id2) {
                    let t2 = choose|t2: int| 0 <= t2 < cur@.len() && cur@[t2].id == Some(id2);
                    if t2 < i {
                        assert(pre@[t2] == cur@[t2]);
                        assert(has_type_id(pre@, id2));
                        assert(lists_type_id(v0, id2));
                        let k = choose|k: int| 0 <= k < v0.len() && v0[k].0 == id2;
                        assert(v@[k].0 == id2);
                    } else {
                        assert(id2 == id);
                        assert(lists_type_id(v@, id));
                    }
                }
                if lists_type_id(v@, id2) {
                    let k = choose|k: int| 0 <= k < v@.len() && v@[k].0 == id2;
                    if id2 != id {
                        assert(v0[k].0 == id2);
                        assert(lists_type_id(v0, id2));
                        let t2 = choose|t2: int| 0 <= t2 < pre@.len() && pre@[t2].id == Some(id2);
                        assert(cur@[t2] == pre@[t2]);
                    } else {
                        assert(cur@[i as int].id == Some(id));
                    }
                }
            }
            assert forall|k: int|
                #![trigger v@[k]]
                0 <= k < v@.len() implies v@[k].1 == status_of(
                cur@[last_with_id(cur@, v@[k].0)],
                rooms@,
                v@[k].0,
                range,
            ) by {
                if v@[k].0 != id {
                    assert(v@[k] == v0[k]);
                    assert(lists_type_id(v0, v0[k].0));
                    assert(has_type_id(pre@, v0[k].0));
                    lemma_last_with_id(pre@, v@[k].0);
                    assert(last_with_id(cur@, v@[k].0) == last_with_id(pre@, v@[k].0));
                    assert(cur@[last_with_id(pre@, v@[k].0)] == pre@[last_with_id(pre@, v@[k].0)]);
                }
            }
        }
        i += 1;
    }
    proof {
        assert(types@.take(i as int) =~= types@);
    }
    v
}

/// The hotel booking service; the repositories are reached by the caller.
pub struct HotelBookingServiceImpl<HR, OR, ORR> {
    pub hotel_repository: Arc<HR>,
    pub order_repository: Arc<OR>,
    pub occupied_room_repository: Arc<ORR>,
}

impl<HR, OR, ORR> HotelBookingServiceImpl<HR, OR, ORR> {
    /// A service over the three repositories.
    pub fn new(
        hotel_repository: Arc<HR>,
        order_repository: Arc<OR>,
        occupied_room_repository: Arc<ORR>,
    ) -> (s: Self)
        ensures
            s.hotel_repository == hotel_repository,
            s.order_repository == order_repository,
            s.occupied_room_repository == occupied_room_repository,
    {
        Self { hotel_repository, order_repository, occupied_room_repository }
    }

    /// Rooms left of each room type of the hotel over the stay, given what the
    /// hotel lookup and the occupied-room lookup returned.
    pub fn get_available_room(
        &self,
        hotel_id: u64,
        booking_date_range: HotelDateRange,
        hotel: Result<Option<Hotel>, RepositoryError>,
        possible_occupied_range: Result<Vec<OccupiedRoom>, RepositoryError>,
    ) -> (r: Result<Vec<(u64, HotelRoomStatus)>, HotelBookingServiceError>)
        requires
            hotel matches Ok(Some(h)) ==> (possible_occupied_range matches Ok(rooms)
                ==> availability_inputs_ok(h.room_type_list@, rooms@, booking_date_range)),
        ensures
            match hotel {
                Err(e) => r == Err::<Vec<(u64, HotelRoomStatus)>, _>(
                    HotelBookingServiceError::InfrastructureError(e),
                ),
                Ok(None) => r == Err::<Vec<(u64, HotelRoomStatus)>, _>(
                    HotelBookingServiceError::InvalidHotelId(hotel_id),
                ),
                Ok(Some(h)) => match possible_occupied_range {
                    Err(e) => r == Err::<Vec<(u64, HotelRoomStatus)>, _>(
                        HotelBookingServiceError::InfrastructureError(e),
                    ),
                    Ok(rooms) => r matches Ok(v) && availability_of(
                        v@,
                        h.room_type_list@,
                        rooms@,
                        booking_date_range,
                    ),
                },
            },
    {
        match hotel {
            Err(e) => Err(HotelBookingServiceError::InfrastructureError(e)),
            Ok(None) => Err(HotelBookingServiceError::InvalidHotelId(hotel_id)),
            Ok(Some(h)) => match possible_occupied_range {
                Err(e) => Err(HotelBookingServiceError::InfrastructureError(e)),
                Ok(rooms) => Ok(room_availability(&h.room_type_list, &rooms, booking_date_range)),
            },
        }
    }
}

} // verus!
