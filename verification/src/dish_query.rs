//! The meal menu of a train: which takeaway shops deliver at which station.
use std::sync::Arc;
use vstd::prelude::*;

use crate::route::Stop;
use crate::train_dish::{booking_reason, TakeawayShop};

verus! {

/// Why the menu could not be put together: a stop of the route is at a
/// station that the station list does not know.
#[derive(Debug, Clone, Copy, PartialEq, Eq)]
pub enum MenuError {
    UnknownStation(u64),
}

/// The name of station `id`: that of the last entry with this id.
pub open spec fn station_name_of(stations: Seq<(u64, String)>, id: u64) -> Option<Seq<char>>
    decreases stations.len(),
{
    if stations.len() == 0 {
        None
    } else if stations.last().0 == id {
        Some(stations.last().1@)
    } else {
        station_name_of(stations.drop_last(), id)
    }
}

/// The index of the first stop whose station has no name, or -1 when every
/// station is known.
pub open spec fn first_unnamed(stops: Seq<(Stop, Vec<TakeawayShop>)>, stations: Seq<(u64, String)>) -> int
    decreases stops.len(),
{
    if stops.len() == 0 {
        -1
    } else if station_name_of(stations, stops[0].0.station_id) is None {
        0
    } else {
        let r = first_unnamed(stops.drop_first(), stations);
        if r < 0 {
            -1
        } else {
            r + 1
        }
    }
}

/// The menu has an entry for the station called `name`.
pub open spec fn has_entry(menu: Seq<(Seq<char>, Seq<TakeawayShop>)>, name: Seq<char>) -> bool {
    exists|i: int| 0 <= i < menu.len() && (#[trigger] menu[i]).0 == name
}

/// The menu by station name: each station at which some stop has shops
/// appears once, with the shops of the last such stop, entries in the order
/// of those stops from the end of the route.
pub open spec fn menu_of(stops: Seq<(Stop, Vec<TakeawayShop>)>, stations: Seq<(u64, String)>) -> Seq<
    (Seq<char>, Seq<TakeawayShop>),
>
    decreases stops.len(),
{
    if stops.len() == 0 {
        Seq::empty()
    } else {
        let rest = menu_of(stops.drop_first(), stations);
        match station_name_of(stations, stops[0].0.station_id) {
            None => rest,
            Some(name) => if stops[0].1@.len() == 0 || has_entry(rest, name) {
                rest
            } else {
                rest.push((name, stops[0].1@))
            },
        }
    }
}

/// A menu as station names and shop lists.
pub open spec fn menu_view(menu: Seq<(String, Vec<TakeawayShop>)>) -> Seq<(Seq<char>, Seq<TakeawayShop>)> {
    menu.map_values(|e: (String, Vec<TakeawayShop>)| (e.0@, e.1@))
}

proof fn lemma_first_unnamed(stops: Seq<(Stop, Vec<TakeawayShop>)>, stations: Seq<(u64, String)>, i: int)
    requires
        0 <= i <= stops.len(),
        forall|j: int| 0 <= j < i ==> station_name_of(stations, (#[trigger] stops[j]).0.station_id) is Some,
    ensures
        i < stops.len() && station_name_of(stations, stops[i].0.station_id) is None ==> first_unnamed(
            stops,
            stations,
        ) == i,
        i == stops.len() ==> first_unnamed(stops, stations) == -1,
    decreases i,
{
    if i > 0 {
        let rest = stops.drop_first();
        assert forall|j: int| 0 <= j < i - 1 implies station_name_of(
            stations,
            (#[trigger] rest[j]).0.station_id,
        ) is Some by {
            assert(rest[j] == stops[j + 1]);
        }
        lemma_first_unnamed(rest, stations, i - 1);
        assert(station_name_of(stations, stops[0].0.station_id) is Some);
    }
}

fn station_name(stations: &Vec<(u64, String)>, id: u64) -> (r: Option<String>)
    ensures
        match r {
            None => station_name_of(stations@, id) is None,
            Some(s) => station_name_of(stations@, id) == Some(s@),
        },
{
    let mut k: usize = stations.len();
    assert(stations@.take(k as int) =~= stations@);
    while k > 0
        invariant
            k <= stations@.len(),
            station_name_of(stations@, id) == station_name_of(stations@.take(k as int), id),
        decreases k,
    {
        proof {
            assert(stations@.take(k as int).drop_last() =~= stations@.take(k - 1));
            assert(stations@.take(k as int).last() == stations@[k - 1]);
        }
        if stations[k - 1].0 == id {
            return Some(stations[k - 1].1.clone());
        }
        k -= 1;
    }
    proof {
        assert(stations@.take(0) =~= Seq::<(u64, String)>::empty());
    }
    None
}

fn menu_has(menu: &Vec<(String, Vec<TakeawayShop>)>, name: &String) -> (b: bool)
    ensures
        b == has_entry(menu_view(menu@), name@),
{
    let mut i: usize = 0;
    while i < menu.len()
        invariant
            i <= menu@.len(),
            forall|j: int| 0 <= j < i ==> (#[trigger] menu_view(menu@)[j]).0 != name@,
        decreases menu@.len() - i,
    {
        if menu[i].0 == *name {
            proof {
                assert(menu_view(menu@)[i as int].0 == name@);
            }
            return true;
        }
        i += 1;
    }
    false
}

/// Each station appears at most once in a menu, as a map from station name
/// to shops would have it.
pub proof fn law_menu_has_each_station_once(stops: Seq<(Stop, Vec<TakeawayShop>)>, stations: Seq<(u64, String)>)
    ensures
        forall|i: int, j: int|
            0 <= i < j < menu_of(stops, stations).len() ==> (#[trigger] menu_of(stops, stations)[i]).0
                != (#[trigger] menu_of(stops, stations)[j]).0,
    decreases stops.len(),
{
    if stops.len() > 0 {
        law_menu_has_each_station_once(stops.drop_first(), stations);
        let rest = menu_of(stops.drop_first(), stations);
        let m = menu_of(stops, stations);
        match station_name_of(stations, stops[0].0.station_id) {
            None => {},
            Some(name) => {
                if !(stops[0].1@.len() == 0 || has_entry(rest, name)) {
                    assert forall|i: int, j: int| 0 <= i < j < m.len() implies #[trigger] m[i].0 != #[trigger] m[j].0 by {
                        if j < rest.len() {
                            assert(m[i] == rest[i] && m[j] == rest[j]);
                        } else {
                            assert(m[i] == rest[i]);
                            assert(m[j].0 == name);
                        }
                    }
                }
            },
        }
    }
}

/// The answer to a meal query, but the train's own dishes (whose prices are
/// shown as floating-point numbers): the train, its departure and terminal
/// arrival as texts, the takeaway menu by station, and whether the user may
/// book, with the reason when not.
#[derive(Debug, Clone)]
pub struct DishQueryAnswer {
    pub train_number: String,
    pub origin_departure_time: String,
    pub terminal_arrival_time: String,
    pub takeaway: Vec<(String, Vec<TakeawayShop>)>,
    pub can_booking: bool,
    pub reason: Option<String>,
}

/// Puts the answer to a meal query together; the reason is given exactly
/// when the user may not book.
pub fn dish_query_answer(
    train_number: String,
    origin_departure_time: String,
    terminal_arrival_time: String,
    takeaway: Vec<(String, Vec<TakeawayShop>)>,
    can_booking: bool,
) -> (r: DishQueryAnswer)
    ensures
        r.train_number@ == train_number@,
        r.origin_departure_time@ == origin_departure_time@,
        r.terminal_arrival_time@ == terminal_arrival_time@,
        r.takeaway@ == takeaway@,
        r.can_booking == can_booking,
        can_booking ==> r.reason is None,
        !can_booking ==> (r.reason matches Some(s) && s@ == "您尚未购买此车次的火车票，无法预订餐食"@),
{
    let reason = booking_reason(can_booking);
    DishQueryAnswer { train_number, origin_departure_time, terminal_arrival_time, takeaway, can_booking, reason }
}

/// The train meal query service; the repositories and ports are reached by
/// the caller.
pub struct DishQueryServiceImpl<DR, TSR, GP, OP, TP, UP> {
    pub dish_repository: Arc<DR>,
    pub takeaway_shop_repository: Arc<TSR>,
    pub geo_port: Arc<GP>,
    pub order_port: Arc<OP>,
    pub train_port: Arc<TP>,
    pub user_port: Arc<UP>,
}

impl<DR, TSR, GP, OP, TP, UP> DishQueryServiceImpl<DR, TSR, GP, OP, TP, UP> {
    /// A service over the given repositories and ports.
    pub fn new(
        dish_repository: Arc<DR>,
        takeaway_shop_repository: Arc<TSR>,
        geo_port: Arc<GP>,
        order_port: Arc<OP>,
        train_port: Arc<TP>,
        user_port: Arc<UP>,
    ) -> (s: Self)
        ensures
            s.dish_repository == dish_repository,
            s.takeaway_shop_repository == takeaway_shop_repository,
            s.geo_port == geo_port,
            s.order_port == order_port,
            s.train_port == train_port,
            s.user_port == user_port,
    {
        Self { dish_repository, takeaway_shop_repository, geo_port, order_port, train_port, user_port }
    }

    /// The takeaway part of a train's menu, from the shops at each stop of
    /// its route and the list of stations (id and name): one entry per
    /// station name with shops, holding the shops of the last stop there
    /// that has any. Refused with the station of the first stop whose
    /// station is not in the list.
    pub fn takeaway_menu(&self, shop_by_stop: Vec<(Stop, Vec<TakeawayShop>)>, stations: &Vec<(u64, String)>) -> (r:
        Result<Vec<(String, Vec<TakeawayShop>)>, MenuError>)
        ensures
            first_unnamed(shop_by_stop@, stations@) >= 0 ==> r == Err::<Vec<(String, Vec<TakeawayShop>)>, _>(
                MenuError::UnknownStation(shop_by_stop@[first_unnamed(shop_by_stop@, stations@)].0.station_id),
            ),
            first_unnamed(shop_by_stop@, stations@) < 0 ==> (r matches Ok(m) && menu_view(m@) == menu_of(
                shop_by_stop@,
                stations@,
            )),
    {
        let ghost s0 = shop_by_stop@;
        let mut i: usize = 0;
        while i < shop_by_stop.len()
            invariant
                i <= s0.len(),
                shop_by_stop@ == s0,
                forall|j: int| 0 <= j < i ==> station_name_of(stations@, (#[trigger] s0[j]).0.station_id) is Some,
            decreases s0.len() - i,
        {
            let id = shop_by_stop[i].0.station_id;
            if station_name(stations, id).is_none() {
                proof {
                    lemma_first_unnamed(s0, stations@, i as int);
                }
                return Err(MenuError::UnknownStation(id));
            }
            i += 1;
        }
        proof {
            lemma_first_unnamed(s0, stations@, i as int);
        }
        let mut stops = shop_by_stop;
        let mut menu: Vec<(String, Vec<TakeawayShop>)> = Vec::new();
        proof {
            assert(s0.skip(s0.len() as int) =~= Seq::<(Stop, Vec<TakeawayShop>)>::empty());
            assert(menu_view(menu@) =~= Seq::<(Seq<char>, Seq<TakeawayShop>)>::empty());
        }
        while stops.len() > 0
            invariant
                stops@.len() <= s0.len(),
                stops@ == s0.take(stops@.len() as int),
                menu_view(menu@) == menu_of(s0.skip(stops@.len() as int), stations@),
            decreases stops@.len(),
        {
            let k: usize = stops.len();
            let ghost before = menu_view(menu@);
            proof {
                assert(s0.skip(k - 1).drop_first() =~= s0.skip(k as int));
                assert(s0.skip(k - 1)[0] == s0[k - 1]);
                assert(s0.take(k as int).last() == s0[k - 1]);
                assert(s0.take(k as int).drop_last() =~= s0.take(k - 1));
            }
            match stops.pop() {
                Some((stop, shops)) => {
                    match station_name(stations, stop.station_id) {
                        None => {},
                        Some(name) => {
                            if shops.len() > 0 && !menu_has(&menu, &name) {
                                let ghost entry = (name@, shops@);
                                menu.push((name, shops));
                                proof {
                                    assert(menu_view(menu@) =~= before.push(entry));
                                }
                            }
                        },
                    }
                },
                None => {},
            }
        }
        proof {
            assert(s0.skip(0) =~= s0);
        }
        Ok(menu)
    }
}

} // verus!
