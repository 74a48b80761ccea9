//! Hotel search: the status of the room types that hold rooms over a stay,
//! and the lowest price of each hotel.
use std::sync::Arc;
use vstd::prelude::*;

use crate::domain::RepositoryError;
use crate::geo::{City, Station};
use crate::hotel::{
    has_type_id, last_with_id, lists_type_id, max_occupied, room_availability, status_of,
    availability_of, Hotel, HotelDateRange, HotelRoomStatus, HotelRoomType, OccupiedRoom,
};
use crate::money::{amount_less_than, amount_lt, amount_ok, zero, zero_amount, Amount};

verus! {

/// Why the room statuses of a hotel could not be read.
#[derive(Debug, Clone, PartialEq, Eq)]
pub enum RoomStatusError {
    HotelNotFound(u64),
    Repository(RepositoryError),
}

/// Some occupied room is of room type `id`.
pub open spec fn has_occupied_type(rooms: Seq<OccupiedRoom>, id: u64) -> bool {
    exists|k: int| 0 <= k < rooms.len() && rooms[k].hotel_room_type_id == id
}

/// `v` lists, once each, the room types of `types` that some occupied room
/// is of, with their status over the stay (for an id given to several room
/// types the last one counts).
pub open spec fn occupied_statuses_of(
    v: Seq<(u64, HotelRoomStatus)>,
    types: Seq<HotelRoomType>,
    rooms: Seq<OccupiedRoom>,
    range: HotelDateRange,
) -> bool {
    &&& forall|i: int, j: int| 0 <= i < v.len() && 0 <= j < v.len() && i != j ==> v[i].0 != v[j].0
    &&& forall|id: u64|
        #![trigger lists_type_id(v, id)]
        lists_type_id(v, id) <==> has_type_id(types, id) && has_occupied_type(rooms, id)
    &&& forall|i: int|
        #![trigger v[i]]
        0 <= i < v.len() ==> v[i].1 == status_of(types[last_with_id(types, v[i].0)], rooms, v[i].0, range)
}

fn has_room_of_type(rooms: &Vec<OccupiedRoom>, id: u64) -> (b: bool)
    ensures
        b == has_occupied_type(rooms@, id),
{
    let mut k: usize = 0;
    while k < rooms.len()
        invariant
            k <= rooms@.len(),
            forall|t: int| 0 <= t < k ==> rooms@[t].hotel_room_type_id != id,
        decreases rooms@.len() - k,
    {
        if rooms[k].hotel_room_type_id == id {
            return true;
        }
        k += 1;
    }
    false
}

/// Status, over the stay, of each room type of the hotel that some occupied
/// room is of, given what the hotel lookup and the occupied-room lookup returned.
pub fn get_all_room_status(
    hotel_id: u64,
    date_range: HotelDateRange,
    hotel: Result<Option<Hotel>, RepositoryError>,
    possible_occupied_range: Result<Vec<OccupiedRoom>, RepositoryError>,
) -> (r: Result<Vec<(u64, HotelRoomStatus)>, RoomStatusError>)
    requires
        hotel matches Ok(Some(h)) ==> (possible_occupied_range matches Ok(rooms) ==> {
            &&& rooms@.len() <= i32::MAX
            &&& forall|t: int|
                0 <= t < h.room_type_list@.len() && h.room_type_list@[t].id is Some
                    && has_occupied_type(rooms@, h.room_type_list@[t].id->0) ==> {
                    let id = h.room_type_list@[t].id->0;
                    h.room_type_list@[last_with_id(h.room_type_list@, id)].capacity - max_occupied(
                        rooms@,
                        id,
                        date_range.begin_date as int,
                        date_range.end_date as int,
                    ) >= i32::MIN
                }
        }),
    ensures
        match hotel {
            Err(e) => r == Err::<Vec<(u64, HotelRoomStatus)>, _>(RoomStatusError::Repository(e)),
            Ok(None) => r == Err::<Vec<(u64, HotelRoomStatus)>, _>(
                RoomStatusError::HotelNotFound(hotel_id),
            ),
            Ok(Some(h)) => match possible_occupied_range {
                Err(e) => r == Err::<Vec<(u64, HotelRoomStatus)>, _>(RoomStatusError::Repository(e)),
                Ok(rooms) => r matches Ok(v) && occupied_statuses_of(
                    v@,
                    h.room_type_list@,
                    rooms@,
                    date_range,
                ),
            },
        },
{
    let h = match hotel {
        Err(e) => return Err(RoomStatusError::Repository(e)),
        Ok(None) => return Err(RoomStatusError::HotelNotFound(hotel_id)),
        Ok(Some(h)) => h,
    };
    let rooms = match possible_occupied_range {
        Err(e) => return Err(RoomStatusError::Repository(e)),
        Ok(rooms) => rooms,
    };
    let all = room_availability(&h.room_type_list, &rooms, date_range);
    let v = keep_occupied_types(&all, &rooms);
    proof {
        let types = h.room_type_list@;
        assert forall|id: u64|
            #![trigger lists_type_id(v@, id)]
            lists_type_id(v@, id) <==> has_type_id(types, id) && has_occupied_type(rooms@, id) by {
            if lists_type_id(v@, id) {
                let a = choose|a: int| 0 <= a < v@.len() && v@[a].0 == id;
                assert(is_entry_of(all@, v@[a]));
                let b = choose|b: int| 0 <= b < all@.len() && all@[b] == v@[a];
                assert(lists_type_id(all@, id));
                assert(has_occupied_type(rooms@, v@[a].0));
            }
            if has_type_id(types, id) && has_occupied_type(rooms@, id) {
                assert(lists_type_id(all@, id));
                let b = choose|b: int| 0 <= b < all@.len() && all@[b].0 == id;
                assert(has_occupied_type(rooms@, all@[b].0));
                let a = choose|a: int| 0 <= a < v@.len() && #[trigger] v@[a] == all@[b];
                assert(v@[a].0 == id);
            }
        }
        assert forall|a: int|
            #![trigger v@[a]]
            0 <= a < v@.len() implies v@[a].1 == status_of(
            types[last_with_id(types, v@[a].0)],
            rooms@,
            v@[a].0,
            date_range,
        ) by {
            assert(is_entry_of(all@, v@[a]));
            let b = choose|b: int| 0 <= b < all@.len() && all@[b] == v@[a];
            assert(all@[b] == v@[a]);
        }
    }
    Ok(v)
}

/// `e` is one of the entries of `all`.
pub open spec fn is_entry_of(all: Seq<(u64, HotelRoomStatus)>, e: (u64, HotelRoomStatus)) -> bool {
    exists|b: int| 0 <= b < all.len() && all[b] == e
}

/// The entries of `all` whose room type some occupied room is of, in order.
fn keep_occupied_types(all: &Vec<(u64, HotelRoomStatus)>, rooms: &Vec<OccupiedRoom>) -> (v: Vec<
    (u64, HotelRoomStatus),
>)
    requires
        forall|a: int, b: int|
            0 <= a < all@.len() && 0 <= b < all@.len() && a != b ==> all@[a].0 != all@[b].0,
    ensures
        forall|a: int, b: int|
            0 <= a < v@.len() && 0 <= b < v@.len() && a != b ==> v@[a].0 != v@[b].0,
        forall|a: int| 0 <= a < v@.len() ==> is_entry_of(all@, #[trigger] v@[a]),
        forall|b: int|
            #![trigger all@[b]]
            0 <= b < all@.len() && has_occupied_type(rooms@, all@[b].0) ==> exists|a: int|
                0 <= a < v@.len() && #[trigger] v@[a] == all@[b],
        forall|a: int| 0 <= a < v@.len() ==> has_occupied_type(rooms@, #[trigger] v@[a].0),
{
    let mut v: Vec<(u64, HotelRoomStatus)> = Vec::new();
    let mut i: usize = 0;
    while i < all.len()
        invariant
            i <= all@.len(),
            forall|a: int, b: int|
                0 <= a < all@.len() && 0 <= b < all@.len() && a != b ==> all@[a].0 != all@[b].0,
            forall|a: int, b: int|
                0 <= a < v@.len() && 0 <= b < v@.len() && a != b ==> v@[a].0 != v@[b].0,
            forall|a: int, c: int|
                0 <= a < v@.len() && i <= c < all@.len() ==> #[trigger] v@[a].0 != #[trigger] all@[c].0,
            forall|a: int| 0 <= a < v@.len() ==> is_entry_of(all@, #[trigger] v@[a]),
            forall|b: int|
                #![trigger all@[b]]
                0 <= b < i && has_occupied_type(rooms@, all@[b].0) ==> exists|a: int|
                    0 <= a < v@.len() && #[trigger] v@[a] == all@[b],
            forall|a: int| 0 <= a < v@.len() ==> has_occupied_type(rooms@, #[trigger] v@[a].0),
        decreases all@.len() - i,
    {
        let e = all[i];
        let ghost v0 = v@;
        if has_room_of_type(rooms, e.0) {
            proof {
                assert forall|a: int| 0 <= a < v0.len() implies v0[a].0 != e.0 by {
                    assert(v0[a].0 != all@[i as int].0);
                }
            }
            v.push(e);
            proof {
                assert(v@[v0.len() as int] == all@[i as int]);
                assert forall|a: int| 0 <= a < v@.len() implies is_entry_of(all@, #[trigger] v@[a]) by {
                    if a < v0.len() {
                        assert(v@[a] == v0[a]);
                        assert(is_entry_of(all@, v0[a]));
                    } else {
                        assert(all@[i as int] == v@[a]);
                    }
                }
                assert forall|b: int|
                    #![trigger all@[b]]
                    0 <= b < i + 1 && has_occupied_type(rooms@, all@[b].0) implies exists|a: int|
                        0 <= a < v@.len() && #[trigger] v@[a] == all@[b] by {
                    if b < i {
                        let a = choose|a: int| 0 <= a < v0.len() && #[trigger] v0[a] == all@[b];
                        assert(v@[a] == all@[b]);
                    } else {
                        assert(v@[v0.len() as int] == all@[b]);
                    }
                }
                assert forall|a: int, c: int|
                    0 <= a < v@.len() && i + 1 <= c < all@.len() implies #[trigger] v@[a].0
                        != #[trigger] all@[c].0 by {
                    if a < v0.len() {
                        assert(v@[a] == v0[a]);
                    } else {
                        assert(v@[a] == all@[i as int]);
                    }
                }
            }
        }
        i += 1;
    }
    v
}

/// The first lowest of the amounts (by value), if any.
pub open spec fn first_min(s: Seq<Amount>) -> Option<Amount>
    decreases s.len(),
{
    if s.len() == 0 {
        None
    } else {
        match first_min(s.drop_last()) {
            None => Some(s.last()),
            Some(m) => if amount_lt(s.last(), m) {
                Some(s.last())
            } else {
                Some(m)
            },
        }
    }
}

/// The lowest of the amounts, or zero when there is none.
pub open spec fn min_or_zero(s: Seq<Amount>) -> Amount {
    match first_min(s) {
        Some(m) => m,
        None => zero_amount(),
    }
}

proof fn lemma_first_min_in(s: Seq<Amount>)
    ensures
        first_min(s) matches Some(m) ==> exists|k: int| 0 <= k < s.len() && s[k] == m,
        s.len() > 0 ==> first_min(s) is Some,
    decreases s.len(),
{
    if s.len() > 0 {
        lemma_first_min_in(s.drop_last());
        if let Some(m) = first_min(s.drop_last()) {
            let k = choose|k: int| 0 <= k < s.drop_last().len() && s.drop_last()[k] == m;
            assert(s[k] == m);
        }
    }
}

/// The first lowest of the amounts, or zero when there is none.
pub fn lowest_price(prices: &Vec<Amount>) -> (m: Amount)
    requires
        forall|k: int| 0 <= k < prices@.len() ==> amount_ok(#[trigger] prices@[k]),
    ensures
        m == min_or_zero(prices@),
{
    if prices.len() == 0 {
        return zero();
    }
    let mut m = prices[0];
    let mut i: usize = 1;
    proof {
        assert(prices@.take(1).drop_last() =~= Seq::<Amount>::empty());
        assert(first_min(prices@.take(1).drop_last()) is None);
        assert(prices@.take(1).last() == prices@[0]);
    }
    while i < prices.len()
        invariant
            1 <= i <= prices@.len(),
            forall|k: int| 0 <= k < prices@.len() ==> amount_ok(#[trigger] prices@[k]),
            first_min(prices@.take(i as int)) == Some(m),
            amount_ok(m),
        decreases prices@.len() - i,
    {
        proof {
            assert(prices@.take(i + 1).drop_last() =~= prices@.take(i as int));
        }
        let p = prices[i];
        if amount_less_than(&p, &m) {
            m = p;
        }
        i += 1;
    }
    proof {
        assert(prices@.take(i as int) =~= prices@);
    }
    m
}

/// Prices of the room types.
pub open spec fn type_prices(types: Seq<HotelRoomType>) -> Seq<Amount>
    decreases types.len(),
{
    if types.len() == 0 {
        Seq::empty()
    } else {
        type_prices(types.drop_last()).push(types.last().price)
    }
}

/// Prices of the room types that have rooms left.
pub open spec fn open_prices(v: Seq<(u64, HotelRoomStatus)>) -> Seq<Amount>
    decreases v.len(),
{
    if v.len() == 0 {
        Seq::empty()
    } else if v.last().1.remain_count > 0 {
        open_prices(v.drop_last()).push(v.last().1.price)
    } else {
        open_prices(v.drop_last())
    }
}

proof fn lemma_type_prices(types: Seq<HotelRoomType>)
    ensures
        type_prices(types).len() == types.len(),
        forall|k: int| 0 <= k < types.len() ==> type_prices(types)[k] == types[k].price,
    decreases types.len(),
{
    if types.len() > 0 {
        lemma_type_prices(types.drop_last());
    }
}

proof fn lemma_open_prices(v: Seq<(u64, HotelRoomStatus)>)
    ensures
        forall|k: int|
            0 <= k < open_prices(v).len() ==> exists|j: int|
                0 <= j < v.len() && v[j].1.price == #[trigger] open_prices(v)[k],
    decreases v.len(),
{
    if v.len() > 0 {
        lemma_open_prices(v.drop_last());
        assert forall|k: int|
            0 <= k < open_prices(v).len() implies exists|j: int|
                0 <= j < v.len() && v[j].1.price == #[trigger] open_prices(v)[k] by {
            if k < open_prices(v.drop_last()).len() {
                let j = choose|j: int|
                    0 <= j < v.drop_last().len() && v.drop_last()[j].1.price == #[trigger] open_prices(
                        v.drop_last(),
                    )[k];
                assert(v[j] == v.drop_last()[j]);
            } else {
                assert(v[v.len() - 1].1.price == open_prices(v)[k]);
            }
        }
    }
}

fn collect_type_prices(types: &Vec<HotelRoomType>) -> (r: Vec<Amount>)
    ensures
        r@ == type_prices(types@),
{
    let mut r: Vec<Amount> = Vec::new();
    let mut i: usize = 0;
    while i < types.len()
        invariant
            i <= types@.len(),
            r@ == type_prices(types@.take(i as int)),
        decreases types@.len() - i,
    {
        proof {
            assert(types@.take(i + 1).drop_last() =~= types@.take(i as int));
        }
        r.push(types[i].price);
        i += 1;
    }
    proof {
        assert(types@.take(i as int) =~= types@);
    }
    r
}

fn collect_open_prices(v: &Vec<(u64, HotelRoomStatus)>) -> (r: Vec<Amount>)
    ensures
        r@ == open_prices(v@),
{
    let mut r: Vec<Amount> = Vec::new();
    let mut i: usize = 0;
    while i < v.len()
        invariant
            i <= v@.len(),
            r@ == open_prices(v@.take(i as int)),
        decreases v@.len() - i,
    {
        proof {
            assert(v@.take(i + 1).drop_last() =~= v@.take(i as int));
        }
        if v[i].1.remain_count > 0 {
            r.push(v[i].1.price);
        }
        i += 1;
    }
    proof {
        assert(v@.take(i as int) =~= v@);
    }
    r
}

/// Lowest price of each hotel that has an id, in the order of the hotels:
/// over all its room types when no stay is given; over the room types with
/// rooms left during the stay otherwise, skipping the hotels whose room
/// statuses could not be read (`statuses[k]` is what the read for hotel `k` gave).
pub open spec fn minimum_prices(
    hotels: Seq<Hotel>,
    with_stay: bool,
    statuses: Seq<Option<Vec<(u64, HotelRoomStatus)>>>,
) -> Seq<(u64, Amount)>
    decreases hotels.len(),
{
    if hotels.len() == 0 {
        Seq::empty()
    } else {
        let prev = minimum_prices(hotels.drop_last(), with_stay, statuses);
        let h = hotels.last();
        match h.id {
            None => prev,
            Some(id) => if !with_stay {
                prev.push((id, min_or_zero(type_prices(h.room_type_list@))))
            } else {
                match statuses[hotels.len() - 1] {
                    None => prev,
                    Some(st) => prev.push((id, min_or_zero(open_prices(st@)))),
                }
            },
        }
    }
}

/// Every price in the hotels and in the statuses is a valid decimal.
pub open spec fn prices_ok(hotels: Seq<Hotel>, statuses: Seq<Option<Vec<(u64, HotelRoomStatus)>>>) -> bool {
    &&& forall|k: int, t: int|
        0 <= k < hotels.len() && 0 <= t < hotels[k].room_type_list@.len() ==> amount_ok(
            #[trigger] hotels[k].room_type_list@[t].price,
        )
    &&& forall|k: int, j: int|
        0 <= k < statuses.len() && statuses[k] is Some && 0 <= j < statuses[k]->0@.len()
            ==> amount_ok(#[trigger] statuses[k]->0@[j].1.price)
}

/// The hotel query service; the repositories are reached by the caller.
pub struct HotelQueryServiceImpl<HR, HRR, CR, SR, ORR> {
    pub hotel_repository: Arc<HR>,
    pub hotel_rating_repository: Arc<HRR>,
    pub city_repository: Arc<CR>,
    pub station_repository: Arc<SR>,
    pub occupied_room_repository: Arc<ORR>,
}

impl<HR, HRR, CR, SR, ORR> HotelQueryServiceImpl<HR, HRR, CR, SR, ORR> {
    /// A service over the five repositories.
    pub fn new(
        hotel_repository: Arc<HR>,
        hotel_rating_repository: Arc<HRR>,
        city_repository: Arc<CR>,
        station_repository: Arc<SR>,
        occupied_room_repository: Arc<ORR>,
    ) -> (s: Self)
        ensures
            s.hotel_repository == hotel_repository,
            s.hotel_rating_repository == hotel_rating_repository,
            s.city_repository == city_repository,
            s.station_repository == station_repository,
            s.occupied_room_repository == occupied_room_repository,
    {
        Self {
            hotel_repository,
            hotel_rating_repository,
            city_repository,
            station_repository,
            occupied_room_repository,
        }
    }

    /// Lowest price of each hotel; `room_statuses[k]` is what reading the room
    /// statuses of hotel `k` over the stay gave (`None` when it failed), and
    /// is read only when a stay is given.
    pub fn calculate_minimum_prices(
        &self,
        hotels: &Vec<Hotel>,
        date_range: Option<HotelDateRange>,
        room_statuses: &Vec<Option<Vec<(u64, HotelRoomStatus)>>>,
    ) -> (r: Vec<(u64, Amount)>)
        requires
            date_range is Some ==> room_statuses@.len() == hotels@.len(),
            prices_ok(hotels@, room_statuses@),
        ensures
            r@ == minimum_prices(hotels@, date_range is Some, room_statuses@),
    {
        let with_stay = date_range.is_some();
        let mut r: Vec<(u64, Amount)> = Vec::new();
        let mut k: usize = 0;
        while k < hotels.len()
            invariant
                k <= hotels@.len(),
                with_stay == date_range is Some,
                with_stay ==> room_statuses@.len() == hotels@.len(),
                prices_ok(hotels@, room_statuses@),
                r@ == minimum_prices(hotels@.take(k as int), with_stay, room_statuses@),
            decreases hotels@.len() - k,
        {
            proof {
                assert(hotels@.take(k + 1).drop_last() =~= hotels@.take(k as int));
            }
            let h = &hotels[k];
            if let Some(id) = h.id {
                if !with_stay {
                    let prices = collect_type_prices(&h.room_type_list);
                    proof {
                        lemma_type_prices(h.room_type_list@);
                        assert forall|t: int| 0 <= t < prices@.len() implies amount_ok(
                            #[trigger] prices@[t],
                        ) by {
                            assert(amount_ok(hotels@[k as int].room_type_list@[t].price));
                        }
                    }
                    r.push((id, lowest_price(&prices)));
                } else {
                    match &room_statuses[k] {
                        None => {},
                        Some(st) => {
                            let prices = collect_open_prices(st);
                            proof {
                                lemma_open_prices(st@);
                                assert forall|t: int| 0 <= t < prices@.len() implies amount_ok(
                                    #[trigger] prices@[t],
                                ) by {
                                    let j = choose|j: int|
                                        0 <= j < st@.len() && st@[j].1.price == #[trigger] open_prices(
                                            st@,
                                        )[t];
                                    assert(amount_ok(room_statuses@[k as int]->0@[j].1.price));
                                }
                            }
                            r.push((id, lowest_price(&prices)));
                        },
                    }
                }
            }
            k += 1;
        }
        proof {
            assert(hotels@.take(k as int) =~= hotels@);
        }
        r
    }
}

/// What hotels are searched around: a city or a station.
#[derive(Debug, Clone, Copy, PartialEq, Eq)]
pub enum TargetType {
    City,
    Station,
}

/// Where the hotels to list are found: in a city, or near a station, by id.
#[derive(Debug, Clone, Copy, PartialEq, Eq)]
pub enum SearchTarget {
    City(u64),
    Station(u64),
}

/// Errors of the hotel search.
#[derive(Debug, Clone, PartialEq, Eq)]
pub enum HotelQueryError {
    RepositoryError(String),
    TargetNotFound(String),
}

/// Resolves the target of a hotel search from what the lookups by name gave:
/// the first city of that name, or the station of that name; refused when
/// there is none.
pub fn hotel_search_target(
    target: &String,
    target_type: TargetType,
    cities: &Vec<City>,
    station: &Option<Station>,
) -> (r: Result<SearchTarget, HotelQueryError>)
    requires
        target_type == TargetType::City && cities@.len() > 0 ==> cities@[0].id is Some,
        target_type == TargetType::Station ==> (station matches Some(s) ==> s.id is Some),
    ensures
        target_type == TargetType::City ==> if cities@.len() == 0 {
            r matches Err(HotelQueryError::TargetNotFound(t)) && t@ == target@
        } else {
            r == Ok::<SearchTarget, HotelQueryError>(SearchTarget::City(cities@[0].id->0))
        },
        target_type == TargetType::Station ==> match station {
            None => r matches Err(HotelQueryError::TargetNotFound(t)) && t@ == target@,
            Some(s) => r == Ok::<SearchTarget, HotelQueryError>(SearchTarget::Station(s.id->0)),
        },
{
    match target_type {
        TargetType::City => {
            if cities.len() == 0 {
                Err(HotelQueryError::TargetNotFound(target.clone()))
            } else {
                match cities[0].id {
                    Some(id) => Ok(SearchTarget::City(id)),
                    None => Err(HotelQueryError::TargetNotFound(target.clone())),
                }
            }
        },
        TargetType::Station => match station {
            None => Err(HotelQueryError::TargetNotFound(target.clone())),
            Some(s) => match s.id {
                Some(id) => Ok(SearchTarget::Station(id)),
                None => Err(HotelQueryError::TargetNotFound(target.clone())),
            },
        },
    }
}

} // verus!
