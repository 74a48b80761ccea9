//! Train schedules: the legs that the trains of a day run, indexed by
//! departure station, and the direct and one-change journeys between stations.
//!
//! Times are seconds; dates are day numbers. A leg departs at the schedule's
//! origin departure time plus the stop's departure offset, both as `u32`.
use std::collections::HashMap;
use std::sync::Arc;
use vstd::prelude::*;

use crate::keyed_sort::{keys_ascending, lemma_sorted_by_key, sort_by_key, sorted_by_key};
use crate::route::{Route, Stop};

verus! {

broadcast use vstd::std_specs::hash::group_hash_axioms;

/// A train's run on one day.
#[derive(Debug, Clone, Copy, PartialEq, Eq)]
pub struct TrainSchedule {
    pub id: Option<u64>,
    pub train_id: u64,
    pub date: i32,
    pub origin_departure_time: i32,
    pub route_id: u64,
}

/// A ride of one schedule from one of its stops to a later one.
#[derive(Debug, Clone, Copy, PartialEq, Eq)]
pub struct Connection {
    pub departure_station: u64,
    pub departure_time: u32,
    pub arrival_station: u64,
    pub arrival_time: u32,
    pub train_schedule_id: u64,
}

/// Index of the last route with id `id`, or -1: a map keyed by id, built by
/// inserting the routes in order.
pub open spec fn route_index(routes: Seq<Route>, id: u64) -> int
    decreases routes.len(),
{
    if routes.len() == 0 {
        -1
    } else if routes.last().id == Some(id) {
        routes.len() - 1
    } else {
        route_index(routes.drop_last(), id)
    }
}

proof fn lemma_route_index(routes: Seq<Route>, id: u64)
    ensures
        -1 <= route_index(routes, id) < routes.len(),
        route_index(routes, id) >= 0 ==> routes[route_index(routes, id)].id == Some(id),
        route_index(routes, id) == -1 ==> forall|k: int| 0 <= k < routes.len() ==> routes[k].id != Some(id),
        forall|k: int| route_index(routes, id) < k < routes.len() ==> routes[k].id != Some(id),
    decreases routes.len(),
{
    if routes.len() > 0 {
        lemma_route_index(routes.drop_last(), id);
        assert forall|k: int| 0 <= k < routes.len() - 1 implies routes[k] == routes.drop_last()[k] by {}
    }
}

/// Finds the route with id `id` (the last one, if several have it).
pub fn find_route(routes: &Vec<Route>, id: u64) -> (r: Option<usize>)
    ensures
        match r {
            Some(p) => p == route_index(routes@, id),
            None => route_index(routes@, id) == -1,
        },
{
    proof {
        lemma_route_index(routes@, id);
    }
    let mut k: usize = routes.len();
    while k > 0
        invariant
            k <= routes@.len(),
            forall|t: int| k <= t < routes@.len() ==> routes@[t].id != Some(id),
            -1 <= route_index(routes@, id) < routes@.len(),
            route_index(routes@, id) >= 0 ==> routes@[route_index(routes@, id)].id == Some(id),
            forall|t: int| route_index(routes@, id) < t < routes@.len() ==> routes@[t].id != Some(id),
        decreases k,
    {
        if routes[k - 1].id == Some(id) {
            return Some(k - 1);
        }
        k -= 1;
    }
    None
}

/// The schedule's origin departure time as a `u32` (two's complement wrap).
pub open spec fn offset(s: TrainSchedule) -> int {
    if s.origin_departure_time >= 0 {
        s.origin_departure_time as int
    } else {
        s.origin_departure_time + 0x1_0000_0000
    }
}

fn offset_u32(s: &TrainSchedule) -> (r: u32)
    ensures
        r == offset(*s),
{
    if s.origin_departure_time >= 0 {
        s.origin_departure_time as u32
    } else {
        (s.origin_departure_time as i64 + 0x1_0000_0000i64) as u32
    }
}

/// The leg of schedule `s` from stop `from` to stop `to`.
pub open spec fn leg(s: TrainSchedule, from: Stop, to: Stop) -> Connection {
    Connection {
        departure_station: from.station_id,
        departure_time: (offset(s) + from.departure_time) as u32,
        arrival_station: to.station_id,
        arrival_time: (offset(s) + to.arrival_time) as u32,
        train_schedule_id: s.id->0,
    }
}

/// The legs of `s` from stop `i` to each later stop, in stop order.
pub open spec fn legs_from(s: TrainSchedule, stops: Seq<Stop>, i: int) -> Seq<Connection> {
    Seq::new((stops.len() - i - 1) as nat, |k: int| leg(s, stops[i], stops[i + 1 + k]))
}

/// The legs of `s` from the first `n` stops.
pub open spec fn legs_before(s: TrainSchedule, stops: Seq<Stop>, n: int) -> Seq<Connection>
    decreases n,
{
    if n <= 0 {
        Seq::empty()
    } else {
        legs_before(s, stops, n - 1) + legs_from(s, stops, n - 1)
    }
}

/// The legs of schedule `s`: none when its route is unknown.
pub open spec fn schedule_legs(s: TrainSchedule, routes: Seq<Route>) -> Seq<Connection> {
    let p = route_index(routes, s.route_id);
    if p < 0 {
        Seq::empty()
    } else {
        legs_before(s, routes[p].stops@, routes[p].stops@.len() as int)
    }
}

/// The legs of all schedules, schedule by schedule.
pub open spec fn all_legs(schedules: Seq<TrainSchedule>, routes: Seq<Route>) -> Seq<Connection>
    decreases schedules.len(),
{
    if schedules.len() == 0 {
        Seq::empty()
    } else {
        all_legs(schedules.drop_last(), routes) + schedule_legs(schedules.last(), routes)
    }
}

/// The legs of `s` can be built: a schedule with two stops or more has an
/// id, and its departure and arrival times stay within `u32`.
pub open spec fn legs_fit(s: TrainSchedule, routes: Seq<Route>) -> bool {
    let p = route_index(routes, s.route_id);
    p >= 0 ==> {
        let stops = routes[p].stops@;
        &&& stops.len() >= 2 ==> s.id is Some
        &&& forall|i: int| 0 <= i < stops.len() - 1 ==> offset(s) + #[trigger] stops[i].departure_time <= u32::MAX
        &&& forall|j: int| 1 <= j < stops.len() ==> offset(s) + #[trigger] stops[j].arrival_time <= u32::MAX
    }
}

/// Each connection keyed by its departure time.
pub open spec fn keyed_by_departure(c: Seq<Connection>) -> Seq<(u32, Connection)> {
    c.map_values(|x: Connection| (x.departure_time, x))
}

/// The connections sorted by departure time, equal times keeping their order.
pub open spec fn by_departure(c: Seq<Connection>) -> Seq<Connection> {
    sorted_by_key(keyed_by_departure(c)).map_values(|p: (u32, Connection)| p.1)
}

fn push_legs_of(out: &mut Vec<Connection>, s: &TrainSchedule, stops: &Vec<Stop>)
    requires
        stops@.len() >= 2 ==> s.id is Some,
        forall|i: int| 0 <= i < stops@.len() - 1 ==> offset(*s) + #[trigger] stops@[i].departure_time <= u32::MAX,
        forall|j: int| 1 <= j < stops@.len() ==> offset(*s) + #[trigger] stops@[j].arrival_time <= u32::MAX,
    ensures
        final(out)@ == old(out)@ + legs_before(*s, stops@, stops@.len() as int),
{
    let off = offset_u32(s);
    let n = stops.len();
    let mut i: usize = 0;
    while i < n
        invariant
            n == stops@.len(),
            i <= n,
            off == offset(*s),
            stops@.len() >= 2 ==> s.id is Some,
            forall|i: int| 0 <= i < stops@.len() - 1 ==> offset(*s) + #[trigger] stops@[i].departure_time <= u32::MAX,
            forall|j: int| 1 <= j < stops@.len() ==> offset(*s) + #[trigger] stops@[j].arrival_time <= u32::MAX,
            out@ == old(out)@ + legs_before(*s, stops@, i as int),
        decreases n - i,
    {
        let from = stops[i];
        let mut j: usize = i + 1;
        let ghost base = out@;
        while j < n
            invariant
                n == stops@.len(),
                i < n,
                i + 1 <= j <= n,
                from == stops@[i as int],
                off == offset(*s),
                stops@.len() >= 2 ==> s.id is Some,
                forall|i: int| 0 <= i < stops@.len() - 1 ==> offset(*s) + #[trigger] stops@[i].departure_time <= u32::MAX,
                forall|j: int| 1 <= j < stops@.len() ==> offset(*s) + #[trigger] stops@[j].arrival_time <= u32::MAX,
                base == old(out)@ + legs_before(*s, stops@, i as int),
                out@ == base + legs_from(*s, stops@, i as int).take(j - i - 1),
            decreases n - j,
        {
            let to = stops[j];
            assert(offset(*s) + stops@[i as int].departure_time <= u32::MAX);
            assert(offset(*s) + stops@[j as int].arrival_time <= u32::MAX);
            let id = match s.id {
                Some(id) => id,
                None => 0,
            };
            let c = Connection {
                departure_station: from.station_id,
                departure_time: off + from.departure_time,
                arrival_station: to.station_id,
                arrival_time: off + to.arrival_time,
                train_schedule_id: id,
            };
            proof {
                assert(c == leg(*s, stops@[i as int], stops@[j as int]));
                assert(legs_from(*s, stops@, i as int).take(j - i) =~= legs_from(
                    *s,
                    stops@,
                    i as int,
                ).take(j - i - 1).push(c));
            }
            out.push(c);
            j += 1;
        }
        proof {
            assert(legs_from(*s, stops@, i as int).take(j - i - 1) =~= legs_from(*s, stops@, i as int));
            assert(legs_before(*s, stops@, i + 1) == legs_before(*s, stops@, i as int) + legs_from(
                *s,
                stops@,
                i as int,
            ));
        }
        i += 1;
    }
}

/// Every leg that the schedules of a day run, over the routes known by id,
/// sorted by departure time (legs that depart at the same time keep the
/// order of the schedules and of their stops).
pub fn build_connections(train_schedules: &Vec<TrainSchedule>, route_map_by_id: &Vec<Route>) -> (r:
    Vec<Connection>)
    requires
        forall|k: int| 0 <= k < train_schedules@.len() ==> legs_fit(#[trigger] train_schedules@[k], route_map_by_id@),
    ensures
        r@ == by_departure(all_legs(train_schedules@, route_map_by_id@)),
{
    let mut legs: Vec<Connection> = Vec::new();
    let mut k: usize = 0;
    while k < train_schedules.len()
        invariant
            k <= train_schedules@.len(),
            forall|k: int| 0 <= k < train_schedules@.len() ==> legs_fit(#[trigger] train_schedules@[k], route_map_by_id@),
            legs@ == all_legs(train_schedules@.take(k as int), route_map_by_id@),
        decreases train_schedules@.len() - k,
    {
        proof {
            assert(train_schedules@.take(k + 1).drop_last() =~= train_schedules@.take(k as int));
        }
        let s = &train_schedules[k];
        assert(legs_fit(train_schedules@[k as int], route_map_by_id@));
        proof {
            lemma_route_index(route_map_by_id@, s.route_id);
        }
        match find_route(route_map_by_id, s.route_id) {
            Some(p) => {
                push_legs_of(&mut legs, s, &route_map_by_id[p].stops);
            },
            None => {
                assert(legs@ =~= legs@ + Seq::<Connection>::empty());
            },
        }
        k += 1;
    }
    proof {
        assert(train_schedules@.take(k as int) =~= train_schedules@);
    }
    let ghost all = legs@;
    let mut keyed: Vec<(u32, Connection)> = Vec::new();
    let mut i: usize = 0;
    while i < legs.len()
        invariant
            i <= legs@.len(),
            keyed@ == keyed_by_departure(legs@.take(i as int)),
        decreases legs@.len() - i,
    {
        proof {
            assert(keyed_by_departure(legs@.take(i + 1)) =~= keyed_by_departure(
                legs@.take(i as int),
            ).push((legs@[i as int].departure_time, legs@[i as int])));
        }
        keyed.push((legs[i].departure_time, legs[i]));
        i += 1;
    }
    proof {
        assert(legs@.take(i as int) =~= legs@);
    }
    let sorted = sort_by_key(&keyed);
    let mut r: Vec<Connection> = Vec::new();
    let mut t: usize = 0;
    while t < sorted.len()
        invariant
            t <= sorted@.len(),
            r@ == sorted@.take(t as int).map_values(|p: (u32, Connection)| p.1),
        decreases sorted@.len() - t,
    {
        proof {
            assert(sorted@.take(t + 1).map_values(|p: (u32, Connection)| p.1) =~= sorted@.take(
                t as int,
            ).map_values(|p: (u32, Connection)| p.1).push(sorted@[t as int].1));
        }
        r.push(sorted[t].1);
        t += 1;
    }
    proof {
        assert(sorted@.take(t as int) =~= sorted@);
    }
    r
}

/// Index of the last node that holds station `st`, or -1.
pub open spec fn last_node_of(nodes: Seq<u64>, st: u64) -> int
    decreases nodes.len(),
{
    if nodes.len() == 0 {
        -1
    } else if nodes.last() == st {
        nodes.len() - 1
    } else {
        last_node_of(nodes.drop_last(), st)
    }
}

proof fn lemma_last_node_of(nodes: Seq<u64>, st: u64)
    ensures
        -1 <= last_node_of(nodes, st) < nodes.len(),
        last_node_of(nodes, st) >= 0 <==> nodes.contains(st),
    decreases nodes.len(),
{
    if nodes.len() > 0 {
        lemma_last_node_of(nodes.drop_last(), st);
        if nodes.last() != st {
            if nodes.contains(st) {
                let k = choose|k: int| 0 <= k < nodes.len() && nodes[k] == st;
                assert(nodes.drop_last()[k] == st);
            }
            if nodes.drop_last().contains(st) {
                let k = choose|k: int| 0 <= k < nodes.drop_last().len() && nodes.drop_last()[k] == st;
                assert(nodes[k] == st);
            }
        } else {
            assert(nodes[nodes.len() - 1] == st);
        }
    }
}

/// The position of each station among the nodes of the route graph (the
/// graph's nodes hold station ids, in node order); a station held by
/// several nodes gets the last of them.
pub fn build_station_index(nodes: &Vec<u64>) -> (m: HashMap<u64, usize>)
    ensures
        forall|st: u64| #[trigger] m@.contains_key(st) <==> nodes@.contains(st),
        forall|st: u64| #[trigger] m@.contains_key(st) ==> m@[st] == last_node_of(nodes@, st),
{
    let mut m: HashMap<u64, usize> = HashMap::new();
    let mut i: usize = 0;
    while i < nodes.len()
        invariant
            i <= nodes@.len(),
            forall|st: u64| #[trigger] m@.contains_key(st) <==> nodes@.take(i as int).contains(st),
            forall|st: u64|
                #[trigger] m@.contains_key(st) ==> m@[st] == last_node_of(nodes@.take(i as int), st),
        decreases nodes@.len() - i,
    {
        let ghost pre = nodes@.take(i as int);
        let ghost cur = nodes@.take(i + 1);
        proof {
            assert(cur.drop_last() =~= pre);
            assert(cur.last() == nodes@[i as int]);
        }
        m.insert(nodes[i], i);
        proof {
            assert forall|st: u64| #[trigger] m@.contains_key(st) <==> cur.contains(st) by {
                lemma_last_node_of(cur, st);
                lemma_last_node_of(pre, st);
            }
        }
        i += 1;
    }
    proof {
        assert(nodes@.take(i as int) =~= nodes@);
    }
    m
}

/// Indices, in increasing order, of the connections that depart from `st`.
pub open spec fn departing(c: Seq<Connection>, st: u64) -> Seq<usize>
    decreases c.len(),
{
    if c.len() == 0 {
        Seq::empty()
    } else if c.last().departure_station == st {
        departing(c.drop_last(), st).push((c.len() - 1) as usize)
    } else {
        departing(c.drop_last(), st)
    }
}

/// Connection indices keyed by the departure time of the connection.
pub open spec fn keyed_indices(c: Seq<Connection>, idx: Seq<usize>) -> Seq<(u32, usize)> {
    idx.map_values(|i: usize| (c[i as int].departure_time, i))
}

/// The indices sorted by departure time of their connection, equal times
/// keeping their order.
pub open spec fn indices_by_departure(c: Seq<Connection>, idx: Seq<usize>) -> Seq<usize> {
    sorted_by_key(keyed_indices(c, idx)).map_values(|p: (u32, usize)| p.1)
}

proof fn lemma_departing(c: Seq<Connection>, st: u64)
    ensures
        forall|k: int| 0 <= k < departing(c, st).len() ==> #[trigger] departing(c, st)[k] < c.len(),
        departing(c, st).len() > 0 <==> exists|k: int| 0 <= k < c.len() && c[k].departure_station == st,
    decreases c.len(),
{
    if c.len() > 0 {
        lemma_departing(c.drop_last(), st);
        if c.last().departure_station != st {
            if exists|k: int| 0 <= k < c.len() && c[k].departure_station == st {
                let k = choose|k: int| 0 <= k < c.len() && c[k].departure_station == st;
                assert(c.drop_last()[k].departure_station == st);
            }
            if exists|k: int| 0 <= k < c.drop_last().len() && c.drop_last()[k].departure_station == st {
                let k = choose|k: int| 0 <= k < c.drop_last().len() && c.drop_last()[k].departure_station == st;
                assert(c[k].departure_station == st);
            }
        } else {
            assert(c[c.len() - 1].departure_station == st);
        }
    }
}

fn sort_indices(c: &Vec<Connection>, idx: &Vec<usize>) -> (r: Vec<usize>)
    requires
        forall|k: int| 0 <= k < idx@.len() ==> #[trigger] idx@[k] < c@.len(),
    ensures
        r@ == indices_by_departure(c@, idx@),
{
    let mut keyed: Vec<(u32, usize)> = Vec::new();
    let mut i: usize = 0;
    while i < idx.len()
        invariant
            i <= idx@.len(),
            forall|k: int| 0 <= k < idx@.len() ==> #[trigger] idx@[k] < c@.len(),
            keyed@ == keyed_indices(c@, idx@.take(i as int)),
        decreases idx@.len() - i,
    {
        proof {
            assert(keyed_indices(c@, idx@.take(i + 1)) =~= keyed_indices(c@, idx@.take(i as int)).push(
                (c@[idx@[i as int] as int].departure_time, idx@[i as int]),
            ));
        }
        let j = idx[i];
        keyed.push((c[j].departure_time, j));
        i += 1;
    }
    proof {
        assert(idx@.take(i as int) =~= idx@);
    }
    let sorted = sort_by_key(&keyed);
    let mut r: Vec<usize> = Vec::new();
    let mut t: usize = 0;
    while t < sorted.len()
        invariant
            t <= sorted@.len(),
            r@ == sorted@.take(t as int).map_values(|p: (u32, usize)| p.1),
        decreases sorted@.len() - t,
    {
        proof {
            assert(sorted@.take(t + 1).map_values(|p: (u32, usize)| p.1) =~= sorted@.take(
                t as int,
            ).map_values(|p: (u32, usize)| p.1).push(sorted@[t as int].1));
        }
        r.push(sorted[t].1);
        t += 1;
    }
    proof {
        assert(sorted@.take(t as int) =~= sorted@);
    }
    r
}

/// For each station that some connection departs from, the indices of those
/// connections sorted by departure time (equal times in index order).
pub fn build_outgoing_index(connections: &Vec<Connection>) -> (m: HashMap<u64, Vec<usize>>)
    ensures
        forall|st: u64|
            #[trigger] m@.contains_key(st) <==> exists|k: int|
                0 <= k < connections@.len() && connections@[k].departure_station == st,
        forall|st: u64|
            #[trigger] m@.contains_key(st) ==> m@[st]@ == indices_by_departure(
                connections@,
                departing(connections@, st),
            ),
{
    let mut m: HashMap<u64, Vec<usize>> = HashMap::new();
    let mut keys: Vec<u64> = Vec::new();
    let mut i: usize = 0;
    while i < connections.len()
        invariant
            i <= connections@.len(),
            forall|st: u64|
                #[trigger] m@.contains_key(st) <==> departing(connections@.take(i as int), st).len() > 0,
            forall|st: u64|
                #[trigger] m@.contains_key(st) ==> m@[st]@ == departing(connections@.take(i as int), st),
            forall|st: u64| #[trigger] m@.contains_key(st) <==> keys@.contains(st),
            keys@.no_duplicates(),
        decreases connections@.len() - i,
    {
        let ghost pre = connections@.take(i as int);
        let ghost cur = connections@.take(i + 1);
        proof {
            assert(cur.drop_last() =~= pre);
            assert(cur.last() == connections@[i as int]);
        }
        let st = connections[i].departure_station;
        let ghost keys0 = keys@;
        let ghost m0 = m@;
        let list = m.remove(&st);
        let mut list = match list {
            Some(l) => l,
            None => {
                keys.push(st);
                Vec::new()
            },
        };
        list.push(i);
        m.insert(st, list);
        proof {
            assert forall|st2: u64| #[trigger] m@.contains_key(st2) <==> keys@.contains(st2) by {
                if st2 != st {
                    if keys@.contains(st2) && !keys0.contains(st2) {
                        let k = choose|k: int| 0 <= k < keys@.len() && keys@[k] == st2;
                        assert(k == keys0.len());
                    }
                    if keys0.contains(st2) {
                        let k = choose|k: int| 0 <= k < keys0.len() && keys0[k] == st2;
                        assert(keys@[k] == st2);
                    }
                } else {
                    if !m0.contains_key(st) {
                        assert(keys@[keys0.len() as int] == st);
                    }
                }
            }
            if !m0.contains_key(st) {
                assert(!keys0.contains(st));
                assert forall|a: int, b: int|
                    0 <= a < keys@.len() && 0 <= b < keys@.len() && a != b implies keys@[a]
                    != keys@[b] by {
                    if a == keys0.len() {
                        assert(keys0[b] == keys@[b]);
                    } else if b == keys0.len() {
                        assert(keys0[a] == keys@[a]);
                    } else {
                        assert(keys0[a] == keys@[a] && keys0[b] == keys@[b]);
                    }
                }
            }
        }
        i += 1;
    }
    proof {
        assert(connections@.take(i as int) =~= connections@);
        assert forall|k: int| 0 <= k < keys@.len() implies m@.contains_key(#[trigger] keys@[k]) by {
            assert(keys@.contains(keys@[k]));
        }
    }
    let mut t: usize = 0;
    while t < keys.len()
        invariant
            i == connections@.len(),
            t <= keys@.len(),
            keys@.no_duplicates(),
            forall|st: u64|
                #[trigger] m@.contains_key(st) <==> departing(connections@, st).len() > 0,
            forall|st: u64| #[trigger] m@.contains_key(st) <==> keys@.contains(st),
            forall|k: int|
                0 <= k < t ==> m@[#[trigger] keys@[k]]@ == indices_by_departure(
                    connections@,
                    departing(connections@, keys@[k]),
                ),
            forall|k: int|
                t <= k < keys@.len() ==> m@[#[trigger] keys@[k]]@ == departing(connections@, keys@[k]),
        decreases keys@.len() - t,
    {
        let st = keys[t];
        proof {
            assert(keys@.contains(st));
            lemma_departing(connections@, st);
        }
        let list = m.remove(&st);
        let list = match list {
            Some(l) => l,
            None => Vec::new(),
        };
        let sorted = sort_indices(connections, &list);
        m.insert(st, sorted);
        proof {
            assert forall|k: int|
                0 <= k < t + 1 implies m@[#[trigger] keys@[k]]@ == indices_by_departure(
                connections@,
                departing(connections@, keys@[k]),
            ) by {
                if k < t {
                    assert(keys@[k] != st);
                }
            }
            assert forall|k: int|
                t + 1 <= k < keys@.len() implies m@[#[trigger] keys@[k]]@ == departing(
                connections@,
                keys@[k],
            ) by {
                assert(keys@[k] != st);
            }
        }
        t += 1;
    }
    proof {
        assert forall|st: u64|
            #[trigger] m@.contains_key(st) <==> exists|k: int|
                0 <= k < connections@.len() && connections@[k].departure_station == st by {
            lemma_departing(connections@, st);
        }
        assert forall|st: u64| #[trigger] m@.contains_key(st) implies m@[st]@ == indices_by_departure(
            connections@,
            departing(connections@, st),
        ) by {
            assert(keys@.contains(st));
            let k = choose|k: int| 0 <= k < keys@.len() && keys@[k] == st;
            assert(m@[keys@[k]]@ == indices_by_departure(connections@, departing(connections@, keys@[k])));
        }
    }
    m
}

/// Index of the last schedule with id `id`, or -1: the schedules keyed by id.
pub open spec fn schedule_index(s: Seq<TrainSchedule>, id: u64) -> int
    decreases s.len(),
{
    if s.len() == 0 {
        -1
    } else if s.last().id == Some(id) {
        s.len() - 1
    } else {
        schedule_index(s.drop_last(), id)
    }
}

proof fn lemma_schedule_index(s: Seq<TrainSchedule>, id: u64)
    ensures
        -1 <= schedule_index(s, id) < s.len(),
        schedule_index(s, id) >= 0 ==> s[schedule_index(s, id)].id == Some(id),
        forall|k: int| schedule_index(s, id) < k < s.len() ==> s[k].id != Some(id),
    decreases s.len(),
{
    if s.len() > 0 {
        lemma_schedule_index(s.drop_last(), id);
        assert forall|k: int| 0 <= k < s.len() - 1 implies s[k] == s.drop_last()[k] by {}
    }
}

fn find_schedule(s: &Vec<TrainSchedule>, id: u64) -> (r: Option<usize>)
    ensures
        match r {
            Some(p) => p == schedule_index(s@, id),
            None => schedule_index(s@, id) == -1,
        },
{
    proof {
        lemma_schedule_index(s@, id);
    }
    let mut k: usize = s.len();
    while k > 0
        invariant
            k <= s@.len(),
            forall|t: int| k <= t < s@.len() ==> s@[t].id != Some(id),
            -1 <= schedule_index(s@, id) < s@.len(),
            schedule_index(s@, id) >= 0 ==> s@[schedule_index(s@, id)].id == Some(id),
            forall|t: int| schedule_index(s@, id) < t < s@.len() ==> s@[t].id != Some(id),
        decreases k,
    {
        if s[k - 1].id == Some(id) {
            return Some(k - 1);
        }
        k -= 1;
    }
    None
}

/// Position of the last stop at station `st`, or -1: the stops keyed by station.
pub open spec fn stop_pos(stops: Seq<Stop>, st: u64) -> int
    decreases stops.len(),
{
    if stops.len() == 0 {
        -1
    } else if stops.last().station_id == st {
        stops.len() - 1
    } else {
        stop_pos(stops.drop_last(), st)
    }
}

proof fn lemma_stop_pos(stops: Seq<Stop>, st: u64)
    ensures
        -1 <= stop_pos(stops, st) < stops.len(),
        stop_pos(stops, st) >= 0 ==> stops[stop_pos(stops, st)].station_id == st,
        forall|k: int| stop_pos(stops, st) < k < stops.len() ==> stops[k].station_id != st,
    decreases stops.len(),
{
    if stops.len() > 0 {
        lemma_stop_pos(stops.drop_last(), st);
        assert forall|k: int| 0 <= k < stops.len() - 1 implies stops[k] == stops.drop_last()[k] by {}
    }
}

fn find_stop(stops: &Vec<Stop>, st: u64) -> (r: Option<usize>)
    ensures
        match r {
            Some(p) => p == stop_pos(stops@, st),
            None => stop_pos(stops@, st) == -1,
        },
{
    proof {
        lemma_stop_pos(stops@, st);
    }
    let mut k: usize = stops.len();
    while k > 0
        invariant
            k <= stops@.len(),
            forall|t: int| k <= t < stops@.len() ==> stops@[t].station_id != st,
            -1 <= stop_pos(stops@, st) < stops@.len(),
            stop_pos(stops@, st) >= 0 ==> stops@[stop_pos(stops@, st)].station_id == st,
            forall|t: int| stop_pos(stops@, st) < t < stops@.len() ==> stops@[t].station_id != st,
        decreases k,
    {
        if stops[k - 1].station_id == st {
            return Some(k - 1);
        }
        k -= 1;
    }
    None
}

/// Seconds in a day.
pub const SECONDS_PER_DAY: u32 = 86400;

/// Shortest change between two trains, in seconds.
pub const MIN_TRANSFER_SEC: u32 = 600;

/// Longest change between two trains, in seconds.
pub const MAX_TRANSFER_SEC: u32 = 10800;

/// Day on which schedule `s` leaves `stop`.
pub open spec fn departure_day(s: TrainSchedule, stop: Stop) -> int {
    s.date + (offset(s) + stop.departure_time) / (SECONDS_PER_DAY as int)
}

/// The stop of the route of the schedule with id `sid` at station `st`, with
/// the schedule: present when the schedule, its route and the stop are known.
pub open spec fn schedule_stop(
    schedules: Seq<TrainSchedule>,
    routes: Seq<Route>,
    sid: u64,
    st: u64,
) -> Option<(TrainSchedule, Stop)> {
    let si = schedule_index(schedules, sid);
    if si < 0 {
        None
    } else {
        let s = schedules[si];
        let ri = route_index(routes, s.route_id);
        if ri < 0 {
            None
        } else {
            let stops = routes[ri].stops@;
            let p = stop_pos(stops, st);
            if p < 0 {
                None
            } else {
                Some((s, stops[p]))
            }
        }
    }
}

/// Connection `c` can start a journey from `origin` on day `date`: its
/// schedule leaves `origin` on that day.
pub open spec fn first_leg_ok(
    date: i32,
    origin: u64,
    c: Connection,
    schedules: Seq<TrainSchedule>,
    routes: Seq<Route>,
) -> bool {
    match schedule_stop(schedules, routes, c.train_schedule_id, origin) {
        None => false,
        Some(p) => departure_day(p.0, p.1) == date,
    }
}

/// The times computed for a first leg stay within `u32`.
pub open spec fn first_leg_fits(
    date: i32,
    origin: u64,
    c: Connection,
    schedules: Seq<TrainSchedule>,
    routes: Seq<Route>,
) -> bool {
    match schedule_stop(schedules, routes, c.train_schedule_id, origin) {
        None => true,
        Some(p) => offset(p.0) + p.1.departure_time <= u32::MAX && (departure_day(p.0, p.1) == date
            ==> c.arrival_time + MAX_TRANSFER_SEC <= u32::MAX),
    }
}

/// Connection `c2` continues a journey that arrived by `c1`, towards `dest`:
/// it leaves the station `c1` arrives at, within the change window, on
/// another schedule, and arrives at `dest`.
pub open spec fn second_leg_ok(c1: Connection, c2: Connection, dest: u64) -> bool {
    &&& c1.arrival_time + MIN_TRANSFER_SEC <= c2.departure_time
    &&& c2.departure_time <= c1.arrival_time + MAX_TRANSFER_SEC
    &&& c2.departure_station == c1.arrival_station
    &&& c2.arrival_station == dest
    &&& c1.train_schedule_id != c2.train_schedule_id
}

/// The changes after `c1` over the connections listed, in list order, as
/// (first schedule, second schedule, change station).
pub open spec fn second_legs(c1: Connection, dest: u64, conns: Seq<Connection>, list: Seq<usize>) -> Seq<
    (u64, u64, u64),
>
    decreases list.len(),
{
    if list.len() == 0 {
        Seq::empty()
    } else {
        let prev = second_legs(c1, dest, conns, list.drop_last());
        let c2 = conns[list.last() as int];
        if second_leg_ok(c1, c2, dest) {
            prev.push((c1.train_schedule_id, c2.train_schedule_id, c1.arrival_station))
        } else {
            prev
        }
    }
}

/// The connections that depart from `st`, by departure time: the list that
/// the departure index holds for `st` (empty when none departs from it).
pub open spec fn outgoing(conns: Seq<Connection>, st: u64) -> Seq<usize> {
    indices_by_departure(conns, departing(conns, st))
}

/// The journeys with one change from `origin` to `dest`, over the first legs
/// listed, in list order.
pub open spec fn first_legs(
    date: i32,
    origin: u64,
    dest: u64,
    conns: Seq<Connection>,
    schedules: Seq<TrainSchedule>,
    routes: Seq<Route>,
    list: Seq<usize>,
) -> Seq<(u64, u64, u64)>
    decreases list.len(),
{
    if list.len() == 0 {
        Seq::empty()
    } else {
        let prev = first_legs(date, origin, dest, conns, schedules, routes, list.drop_last());
        let c1 = conns[list.last() as int];
        if first_leg_ok(date, origin, c1, schedules, routes) {
            prev + second_legs(c1, dest, conns, outgoing(conns, c1.arrival_station))
        } else {
            prev
        }
    }
}

/// `s` without repeats, each element where it first occurs.
pub open spec fn dedup<A>(s: Seq<A>) -> Seq<A>
    decreases s.len(),
{
    if s.len() == 0 {
        Seq::empty()
    } else {
        let d = dedup(s.drop_last());
        if d.contains(s.last()) {
            d
        } else {
            d.push(s.last())
        }
    }
}

/// One change journey as returned: the two schedules, origin, destination
/// and the change station.
pub open spec fn journey_of(origin: u64, dest: u64, t: (u64, u64, u64)) -> (Seq<u64>, u64, u64, Option<u64>) {
    (seq![t.0, t.1], origin, dest, Some(t.2))
}

/// The journeys with one change for each pair of stations, pair by pair,
/// without repeats within a pair.
pub open spec fn transfer_journeys(
    date: i32,
    pairs: Seq<(u64, u64)>,
    conns: Seq<Connection>,
    schedules: Seq<TrainSchedule>,
    routes: Seq<Route>,
) -> Seq<(Seq<u64>, u64, u64, Option<u64>)>
    decreases pairs.len(),
{
    if pairs.len() == 0 {
        Seq::empty()
    } else {
        let o = pairs.last().0;
        let d = pairs.last().1;
        let found = dedup(first_legs(date, o, d, conns, schedules, routes, outgoing(conns, o)));
        transfer_journeys(date, pairs.drop_last(), conns, schedules, routes) + found.map_values(
            |t: (u64, u64, u64)| journey_of(o, d, t),
        )
    }
}

/// The times computed for the first legs from each origin stay within `u32`.
pub open spec fn transfer_inputs_fit(
    date: i32,
    pairs: Seq<(u64, u64)>,
    conns: Seq<Connection>,
    schedules: Seq<TrainSchedule>,
    routes: Seq<Route>,
) -> bool {
    forall|p: int, k: int|
        0 <= p < pairs.len() && 0 <= k < outgoing(conns, pairs[p].0).len() ==> first_leg_fits(
            date,
            pairs[p].0,
            conns[#[trigger] outgoing(conns, pairs[p].0)[k] as int],
            schedules,
            routes,
        )
}

proof fn lemma_outgoing(conns: Seq<Connection>, st: u64)
    ensures
        forall|k: int| 0 <= k < outgoing(conns, st).len() ==> #[trigger] outgoing(conns, st)[k] < conns.len(),
        forall|a: int, b: int|
            0 <= a <= b < outgoing(conns, st).len() ==> conns[outgoing(conns, st)[a] as int].departure_time
                <= conns[outgoing(conns, st)[b] as int].departure_time,
        departing(conns, st).len() == 0 ==> outgoing(conns, st).len() == 0,
{
    let idx = departing(conns, st);
    let keyed = keyed_indices(conns, idx);
    let sorted = sorted_by_key(keyed);
    lemma_departing(conns, st);
    lemma_sorted_by_key(keyed);
    assert forall|k: int| 0 <= k < sorted.len() implies #[trigger] sorted[k].1 < conns.len()
        && sorted[k].0 == conns[sorted[k].1 as int].departure_time by {
        vstd::seq_lib::to_multiset_contains(sorted, sorted[k]);
        vstd::seq_lib::to_multiset_contains(keyed, sorted[k]);
        assert(sorted.contains(sorted[k]));
        assert(keyed.to_multiset().count(sorted[k]) > 0);
        assert(keyed.contains(sorted[k]));
        let j = choose|j: int| 0 <= j < keyed.len() && keyed[j] == sorted[k];
        assert(keyed[j] == (conns[idx[j] as int].departure_time, idx[j]));
    }
    assert forall|a: int, b: int|
        0 <= a <= b < outgoing(conns, st).len() implies conns[outgoing(conns, st)[a] as int].departure_time
        <= conns[outgoing(conns, st)[b] as int].departure_time by {
        assert(sorted[a].0 <= sorted[b].0);
        assert(sorted[a].1 < conns.len());
        assert(sorted[b].1 < conns.len());
    }
    assert forall|k: int| 0 <= k < outgoing(conns, st).len() implies #[trigger] outgoing(conns, st)[k]
        < conns.len() by {
        assert(sorted[k].1 < conns.len());
    }
}

/// First position in `list` whose connection departs at `key` or later.
fn lower_bound(conns: &Vec<Connection>, list: &Vec<usize>, key: u32) -> (p: usize)
    requires
        forall|k: int| 0 <= k < list@.len() ==> #[trigger] list@[k] < conns@.len(),
        forall|a: int, b: int|
            0 <= a <= b < list@.len() ==> conns@[list@[a] as int].departure_time
                <= conns@[list@[b] as int].departure_time,
    ensures
        p <= list@.len(),
        forall|q: int| 0 <= q < p ==> conns@[#[trigger] list@[q] as int].departure_time < key,
        forall|q: int| p <= q < list@.len() ==> conns@[#[trigger] list@[q] as int].departure_time >= key,
{
    let mut lo: usize = 0;
    let mut hi: usize = list.len();
    while lo < hi
        invariant
            lo <= hi <= list@.len(),
            forall|k: int| 0 <= k < list@.len() ==> #[trigger] list@[k] < conns@.len(),
            forall|a: int, b: int|
                0 <= a <= b < list@.len() ==> conns@[list@[a] as int].departure_time
                    <= conns@[list@[b] as int].departure_time,
            forall|q: int| 0 <= q < lo ==> conns@[#[trigger] list@[q] as int].departure_time < key,
            forall|q: int| hi <= q < list@.len() ==> conns@[#[trigger] list@[q] as int].departure_time >= key,
        decreases hi - lo,
    {
        let mid = lo + (hi - lo) / 2;
        if conns[list[mid]].departure_time < key {
            lo = mid + 1;
        } else {
            hi = mid;
        }
    }
    lo
}

proof fn lemma_second_legs_prefix(c1: Connection, dest: u64, conns: Seq<Connection>, list: Seq<usize>, j: int)
    requires
        0 <= j <= list.len(),
        forall|q: int| j <= q < list.len() ==> !second_leg_ok(c1, conns[#[trigger] list[q] as int], dest),
    ensures
        second_legs(c1, dest, conns, list) == second_legs(c1, dest, conns, list.take(j)),
    decreases list.len(),
{
    if list.len() > j {
        assert(list.drop_last().take(j) =~= list.take(j));
        lemma_second_legs_prefix(c1, dest, conns, list.drop_last(), j);
    } else {
        assert(list.take(j) =~= list);
    }
}

/// The changes after `c1` towards `dest`, from a departure list sorted by time.
fn collect_second_legs(c1: Connection, dest: u64, conns: &Vec<Connection>, list: &Vec<usize>) -> (r: Vec<
    (u64, u64, u64),
>)
    requires
        forall|k: int| 0 <= k < list@.len() ==> #[trigger] list@[k] < conns@.len(),
        forall|a: int, b: int|
            0 <= a <= b < list@.len() ==> conns@[list@[a] as int].departure_time
                <= conns@[list@[b] as int].departure_time,
        c1.arrival_time + MAX_TRANSFER_SEC <= u32::MAX,
    ensures
        r@ == second_legs(c1, dest, conns@, list@),
{
    let earliest = c1.arrival_time + MIN_TRANSFER_SEC;
    let latest = c1.arrival_time + MAX_TRANSFER_SEC;
    let start = lower_bound(conns, list, earliest);
    proof {
        assert forall|q: int| 0 <= q < start implies !second_leg_ok(c1, conns@[#[trigger] list@[q] as int], dest) by {}
        lemma_second_legs_prefix(c1, dest, conns@, list@.take(start as int), 0);
        assert(list@.take(start as int).take(0) =~= Seq::<usize>::empty());
    }
    let mut r: Vec<(u64, u64, u64)> = Vec::new();
    let mut j: usize = start;
    assert(list@.take(list@.len() as int) =~= list@);
    while j < list.len()
        invariant_except_break
            start <= j <= list@.len(),
            r@ == second_legs(c1, dest, conns@, list@.take(j as int)),
        invariant
            start <= j <= list@.len(),
            forall|k: int| 0 <= k < list@.len() ==> #[trigger] list@[k] < conns@.len(),
            forall|a: int, b: int|
                0 <= a <= b < list@.len() ==> conns@[list@[a] as int].departure_time
                    <= conns@[list@[b] as int].departure_time,
            earliest == c1.arrival_time + MIN_TRANSFER_SEC,
            latest == c1.arrival_time + MAX_TRANSFER_SEC,
            forall|q: int| start <= q < list@.len() ==> conns@[#[trigger] list@[q] as int].departure_time >= earliest,
            list@.take(list@.len() as int) == list@,
        ensures
            r@ == second_legs(c1, dest, conns@, list@),
        decreases list@.len() - j,
    {
        let c2 = conns[list[j]];
        proof {
            assert(list@.take(j + 1).drop_last() =~= list@.take(j as int));
            assert(list@.take(j + 1).last() == list@[j as int]);
            assert(conns@[list@[j as int] as int].departure_time >= earliest);
        }
        if c2.departure_time > latest {
            proof {
                assert forall|q: int| j <= q < list@.len() implies !second_leg_ok(
                    c1,
                    conns@[#[trigger] list@[q] as int],
                    dest,
                ) by {
                    assert(conns@[list@[j as int] as int].departure_time <= conns@[list@[q] as int].departure_time);
                }
                lemma_second_legs_prefix(c1, dest, conns@, list@, j as int);
            }
            break;
        }
        if c2.departure_station == c1.arrival_station && c2.arrival_station == dest
            && c1.train_schedule_id != c2.train_schedule_id {
            r.push((c1.train_schedule_id, c2.train_schedule_id, c1.arrival_station));
        }
        j += 1;
    }
    proof {
        if j == list@.len() {
            assert(list@.take(j as int) =~= list@);
        }
    }
    r
}

fn contains_triple(v: &Vec<(u64, u64, u64)>, t: (u64, u64, u64)) -> (b: bool)
    ensures
        b == v@.contains(t),
{
    let mut k: usize = 0;
    while k < v.len()
        invariant
            k <= v@.len(),
            forall|q: int| 0 <= q < k ==> v@[q] != t,
        decreases v@.len() - k,
    {
        let e = v[k];
        if e.0 == t.0 && e.1 == t.1 && e.2 == t.2 {
            assert(v@[k as int] == t);
            return true;
        }
        k += 1;
    }
    false
}

/// Whether schedule `sid` leaves station `origin` on day `date`.
fn leaves_on(
    date: i32,
    origin: u64,
    sid: u64,
    schedules: &Vec<TrainSchedule>,
    routes: &Vec<Route>,
) -> (b: bool)
    requires
        match schedule_stop(schedules@, routes@, sid, origin) {
            None => true,
            Some(p) => offset(p.0) + p.1.departure_time <= u32::MAX,
        },
    ensures
        b == match schedule_stop(schedules@, routes@, sid, origin) {
            None => false,
            Some(p) => departure_day(p.0, p.1) == date,
        },
{
    proof {
        lemma_schedule_index(schedules@, sid);
    }
    let si = match find_schedule(schedules, sid) {
        Some(si) => si,
        None => return false,
    };
    let sched = &schedules[si];
    proof {
        lemma_route_index(routes@, sched.route_id);
    }
    let ri = match find_route(routes, sched.route_id) {
        Some(ri) => ri,
        None => return false,
    };
    let stops = &routes[ri].stops;
    proof {
        lemma_stop_pos(stops@, origin);
    }
    let p = match find_stop(stops, origin) {
        Some(p) => p,
        None => return false,
    };
    let departure_offset = stops[p].departure_time + offset_u32(sched);
    let day = sched.date as i64 + (departure_offset / SECONDS_PER_DAY) as i64;
    day == date as i64
}

/// Views of the journeys returned.
pub open spec fn journey_views(r: Seq<(Vec<u64>, u64, u64, Option<u64>)>) -> Seq<(Seq<u64>, u64, u64, Option<u64>)> {
    r.map_values(|e: (Vec<u64>, u64, u64, Option<u64>)| (e.0@, e.1, e.2, e.3))
}

pub(crate) proof fn lemma_dedup_push<A>(s: Seq<A>, x: A)
    ensures
        dedup(s.push(x)) == if dedup(s).contains(x) {
            dedup(s)
        } else {
            dedup(s).push(x)
        },
{
    assert(s.push(x).drop_last() =~= s);
}

/// The one-change journeys for one pair of stations, without repeats.
fn pair_transfers(
    date: i32,
    origin: u64,
    dest: u64,
    conns: &Vec<Connection>,
    index: &HashMap<u64, Vec<usize>>,
    schedules: &Vec<TrainSchedule>,
    routes: &Vec<Route>,
) -> (r: Vec<(u64, u64, u64)>)
    requires
        forall|st: u64|
            #[trigger] index@.contains_key(st) <==> exists|k: int|
                0 <= k < conns@.len() && conns@[k].departure_station == st,
        forall|st: u64| #[trigger] index@.contains_key(st) ==> index@[st]@ == outgoing(conns@, st),
        forall|k: int|
            0 <= k < outgoing(conns@, origin).len() ==> first_leg_fits(
                date,
                origin,
                conns@[#[trigger] outgoing(conns@, origin)[k] as int],
                schedules@,
                routes@,
            ),
    ensures
        r@ == dedup(first_legs(date, origin, dest, conns@, schedules@, routes@, outgoing(conns@, origin))),
{
    let mut seen: Vec<(u64, u64, u64)> = Vec::new();
    proof {
        lemma_outgoing(conns@, origin);
        lemma_departing(conns@, origin);
    }
    let list1 = match index.get(&origin) {
        Some(l) => l,
        None => {
            assert(outgoing(conns@, origin) =~= Seq::<usize>::empty());
            return seen;
        },
    };
    let ghost l1 = outgoing(conns@, origin);
    assert(list1@ == l1);
    let mut i: usize = 0;
    while i < list1.len()
        invariant
            list1@ == l1,
            l1 == outgoing(conns@, origin),
            i <= l1.len(),
            forall|k: int| 0 <= k < l1.len() ==> #[trigger] l1[k] < conns@.len(),
            forall|st: u64|
                #[trigger] index@.contains_key(st) <==> exists|k: int|
                    0 <= k < conns@.len() && conns@[k].departure_station == st,
            forall|st: u64| #[trigger] index@.contains_key(st) ==> index@[st]@ == outgoing(conns@, st),
            forall|k: int|
                0 <= k < l1.len() ==> first_leg_fits(
                    date,
                    origin,
                    conns@[#[trigger] l1[k] as int],
                    schedules@,
                    routes@,
                ),
            seen@ == dedup(first_legs(date, origin, dest, conns@, schedules@, routes@, l1.take(i as int))),
        decreases l1.len() - i,
    {
        let ghost before = first_legs(date, origin, dest, conns@, schedules@, routes@, l1.take(i as int));
        proof {
            assert(l1.take(i + 1).drop_last() =~= l1.take(i as int));
            assert(l1.take(i + 1).last() == l1[i as int]);
            assert(first_leg_fits(date, origin, conns@[l1[i as int] as int], schedules@, routes@));
        }
        let c1 = conns[list1[i]];
        if leaves_on(date, origin, c1.train_schedule_id, schedules, routes) {
            proof {
                lemma_outgoing(conns@, c1.arrival_station);
                lemma_departing(conns@, c1.arrival_station);
            }
            let cands = match index.get(&c1.arrival_station) {
                Some(list2) => collect_second_legs(c1, dest, conns, list2),
                None => {
                    assert(outgoing(conns@, c1.arrival_station) =~= Seq::<usize>::empty());
                    Vec::new()
                },
            };
            let ghost cs = cands@;
            assert(cs == second_legs(c1, dest, conns@, outgoing(conns@, c1.arrival_station)));
            let mut m: usize = 0;
            while m < cands.len()
                invariant
                    cands@ == cs,
                    m <= cs.len(),
                    seen@ == dedup(before + cs.take(m as int)),
                decreases cs.len() - m,
            {
                let t = cands[m];
                proof {
                    assert(before + cs.take(m + 1) =~= (before + cs.take(m as int)).push(t));
                    lemma_dedup_push(before + cs.take(m as int), t);
                }
                if !contains_triple(&seen, t) {
                    seen.push(t);
                }
                m += 1;
            }
            proof {
                assert(cs.take(m as int) =~= cs);
            }
        } else {
        }
        i += 1;
    }
    proof {
        assert(l1.take(i as int) =~= l1);
    }
    seen
}

/// Schedule `s`, running over `stops`, serves the pair (from, to) on day
/// `date`: it calls at `from` before `to` and leaves `from` on that day.
pub open spec fn serves(date: i32, s: TrainSchedule, stops: Seq<Stop>, pair: (u64, u64)) -> bool {
    let i = stop_pos(stops, pair.0);
    let j = stop_pos(stops, pair.1);
    &&& i >= 0
    &&& j >= 0
    &&& i < j
    &&& departure_day(s, stops[i]) == date
}

/// The first pair, in list order, that schedule `s` serves on day `date`.
pub open spec fn first_served(date: i32, s: TrainSchedule, stops: Seq<Stop>, pairs: Seq<(u64, u64)>) -> Option<
    (u64, u64),
>
    decreases pairs.len(),
{
    if pairs.len() == 0 {
        None
    } else {
        match first_served(date, s, stops, pairs.drop_last()) {
            Some(x) => Some(x),
            None => if serves(date, s, stops, pairs.last()) {
                Some(pairs.last())
            } else {
                None
            },
        }
    }
}

/// Each schedule whose route is known and that serves some pair on day
/// `date`, with the first pair it serves, in schedule order.
pub open spec fn direct_found(
    date: i32,
    schedules: Seq<TrainSchedule>,
    routes: Seq<Route>,
    pairs: Seq<(u64, u64)>,
) -> Seq<(TrainSchedule, u64, u64)>
    decreases schedules.len(),
{
    if schedules.len() == 0 {
        Seq::empty()
    } else {
        let prev = direct_found(date, schedules.drop_last(), routes, pairs);
        let s = schedules.last();
        let ri = route_index(routes, s.route_id);
        if ri < 0 {
            prev
        } else {
            match first_served(date, s, routes[ri].stops@, pairs) {
                None => prev,
                Some(x) => prev.push((s, x.0, x.1)),
            }
        }
    }
}

/// A `u32` that orders as the `i32` origin departure time does.
pub open spec fn departure_key(x: i32) -> u32 {
    (x + 0x8000_0000) as u32
}

/// The found schedules sorted by origin departure time, equal times keeping their order.
pub open spec fn by_origin_departure(v: Seq<(TrainSchedule, u64, u64)>) -> Seq<(TrainSchedule, u64, u64)> {
    sorted_by_key(
        v.map_values(|e: (TrainSchedule, u64, u64)| (departure_key(e.0.origin_departure_time), e)),
    ).map_values(|p: (u32, (TrainSchedule, u64, u64))| p.1)
}

/// The departure time computed for the pairs that a schedule may serve stays within `u32`.
pub open spec fn direct_inputs_fit(schedules: Seq<TrainSchedule>, routes: Seq<Route>, pairs: Seq<(u64, u64)>) -> bool {
    forall|k: int, q: int|
        #![trigger schedules[k], pairs[q]]
        0 <= k < schedules.len() && 0 <= q < pairs.len() && route_index(routes, schedules[k].route_id) >= 0
            ==> {
            let stops = routes[route_index(routes, schedules[k].route_id)].stops@;
            let i = stop_pos(stops, pairs[q].0);
            let j = stop_pos(stops, pairs[q].1);
            i >= 0 && j >= 0 && i < j ==> offset(schedules[k]) + stops[i].departure_time <= u32::MAX
        }
}

fn first_served_pair(date: i32, s: &TrainSchedule, stops: &Vec<Stop>, pairs: &Vec<(u64, u64)>) -> (r: Option<
    (u64, u64),
>)
    requires
        forall|q: int|
            0 <= q < pairs@.len() ==> {
                let i = stop_pos(stops@, #[trigger] pairs@[q].0);
                let j = stop_pos(stops@, pairs@[q].1);
                i >= 0 && j >= 0 && i < j ==> offset(*s) + stops@[i].departure_time <= u32::MAX
            },
    ensures
        r == first_served(date, *s, stops@, pairs@),
{
    let mut q: usize = 0;
    while q < pairs.len()
        invariant
            q <= pairs@.len(),
            first_served(date, *s, stops@, pairs@.take(q as int)) is None,
            forall|q: int|
                0 <= q < pairs@.len() ==> {
                    let i = stop_pos(stops@, #[trigger] pairs@[q].0);
                    let j = stop_pos(stops@, pairs@[q].1);
                    i >= 0 && j >= 0 && i < j ==> offset(*s) + stops@[i].departure_time <= u32::MAX
                },
        decreases pairs@.len() - q,
    {
        let pair = pairs[q];
        proof {
            assert(pairs@.take(q + 1).drop_last() =~= pairs@.take(q as int));
            assert(pairs@.take(q + 1).last() == pair);
            lemma_stop_pos(stops@, pair.0);
            lemma_stop_pos(stops@, pair.1);
            assert(pairs@[q as int] == pair);
        }
        let hit = match (find_stop(stops, pair.0), find_stop(stops, pair.1)) {
            (Some(i), Some(j)) => {
                if i < j {
                    let departure_offset = stops[i].departure_time + offset_u32(s);
                    let day = s.date as i64 + (departure_offset / SECONDS_PER_DAY) as i64;
                    day == date as i64
                } else {
                    false
                }
            },
            _ => false,
        };
        if hit {
            proof {
                assert(first_served(date, *s, stops@, pairs@.take(q + 1)) == Some(pair));
                lemma_first_served_prefix(date, *s, stops@, pairs@, q + 1);
            }
            return Some(pair);
        }
        q += 1;
    }
    proof {
        assert(pairs@.take(q as int) =~= pairs@);
    }
    None
}

proof fn lemma_first_served_prefix(date: i32, s: TrainSchedule, stops: Seq<Stop>, pairs: Seq<(u64, u64)>, n: int)
    requires
        0 <= n <= pairs.len(),
        first_served(date, s, stops, pairs.take(n)) is Some,
    ensures
        first_served(date, s, stops, pairs) == first_served(date, s, stops, pairs.take(n)),
    decreases pairs.len(),
{
    if pairs.len() > n {
        assert(pairs.drop_last().take(n) =~= pairs.take(n));
        lemma_first_served_prefix(date, s, stops, pairs.drop_last(), n);
    } else {
        assert(pairs.take(n) =~= pairs);
    }
}

fn add_direct(
    found: &mut Vec<(TrainSchedule, u64, u64)>,
    date: i32,
    Ghost(all): Ghost<Seq<TrainSchedule>>,
    Ghost(k): Ghost<int>,
    s: &TrainSchedule,
    routes: &Vec<Route>,
    pairs: &Vec<(u64, u64)>,
)
    requires
        0 <= k < all.len(),
        all[k] == *s,
        direct_inputs_fit(all, routes@, pairs@),
        old(found)@ == direct_found(date, all.take(k), routes@, pairs@),
    ensures
        final(found)@ == direct_found(date, all.take(k + 1), routes@, pairs@),
{
    proof {
        assert(all.take(k + 1).drop_last() =~= all.take(k));
        assert(all.take(k + 1).last() == *s);
        lemma_route_index(routes@, s.route_id);
    }
    match find_route(routes, s.route_id) {
        None => {},
        Some(ri) => {
            proof {
                assert forall|q: int|
                    0 <= q < pairs@.len() implies {
                    let i = stop_pos(routes@[ri as int].stops@, #[trigger] pairs@[q].0);
                    let j = stop_pos(routes@[ri as int].stops@, pairs@[q].1);
                    i >= 0 && j >= 0 && i < j ==> offset(*s) + routes@[ri as int].stops@[i].departure_time
                        <= u32::MAX
                } by {
                    assert(all[k] == *s);
                    assert(pairs@[q] == pairs@[q]);
                }
            }
            match first_served_pair(date, s, &routes[ri].stops, pairs) {
                None => {},
                Some(x) => {
                    found.push((*s, x.0, x.1));
                },
            }
        },
    }
}

/// A train and the defaults of its daily schedule.
#[derive(Debug, Clone, Copy, PartialEq, Eq)]
pub struct Train {
    pub id: Option<u64>,
    pub default_origin_departure_time: i32,
    pub default_route_id: u64,
}

/// Index of the last stop with the highest order (the terminal).
pub open spec fn terminal_index(stops: Seq<Stop>) -> int
    decreases stops.len(),
{
    if stops.len() <= 1 {
        0
    } else {
        let prev = terminal_index(stops.drop_last());
        if stops.last().order >= stops[prev].order {
            stops.len() - 1
        } else {
            prev
        }
    }
}

proof fn lemma_terminal_index(stops: Seq<Stop>)
    requires
        stops.len() > 0,
    ensures
        0 <= terminal_index(stops) < stops.len(),
        forall|k: int| 0 <= k < stops.len() ==> (#[trigger] stops[k]).order <= stops[terminal_index(stops)].order,
        forall|k: int|
            terminal_index(stops) < k < stops.len() ==> (#[trigger] stops[k]).order < stops[terminal_index(
                stops,
            )].order,
    decreases stops.len(),
{
    if stops.len() > 1 {
        lemma_terminal_index(stops.drop_last());
        assert forall|k: int| 0 <= k < stops.len() - 1 implies stops[k] == stops.drop_last()[k] by {}
    }
}

/// Arrival, in seconds on the same clock as `origin_departure_time`, of the
/// train at the terminal of its route: the stop with the highest order (the
/// last such stop when several share it).
pub fn get_terminal_arrival_time(origin_departure_time: i64, route: &Route) -> (r: i64)
    requires
        route.stops@.len() > 0,
        i64::MIN <= origin_departure_time + route.stops@[terminal_index(route.stops@)].arrival_time
            <= i64::MAX,
    ensures
        r == origin_departure_time + route.stops@[terminal_index(route.stops@)].arrival_time,
{
    let stops = &route.stops;
    let mut best: usize = 0;
    let mut i: usize = 1;
    proof {
        assert(stops@.take(1).len() == 1);
    }
    while i < stops.len()
        invariant
            1 <= i <= stops@.len(),
            best < i,
            best == terminal_index(stops@.take(i as int)),
        decreases stops@.len() - i,
    {
        proof {
            assert(stops@.take(i + 1).drop_last() =~= stops@.take(i as int));
            assert(stops@.take(i as int)[best as int] == stops@[best as int]);
        }
        if stops[i].order >= stops[best].order {
            best = i;
        }
        i += 1;
    }
    proof {
        assert(stops@.take(i as int) =~= stops@);
    }
    origin_departure_time + stops[best].arrival_time as i64
}

/// Position of the first stop at station `st`, or -1.
pub open spec fn first_stop_pos(stops: Seq<Stop>, st: u64) -> int
    decreases stops.len(),
{
    if stops.len() == 0 {
        -1
    } else if first_stop_pos(stops.drop_last(), st) >= 0 {
        first_stop_pos(stops.drop_last(), st)
    } else if stops.last().station_id == st {
        stops.len() - 1
    } else {
        -1
    }
}

/// The terminal arrival of a train that left its origin at the UTC instant
/// `origin_departure_time`, shown in the same UTC offset as the departure
/// (`offset_seconds`): the instant of `get_terminal_arrival_time`, and that
/// offset.
pub fn terminal_arrival_with_offset(origin_departure_time: i64, offset_seconds: i32, route: &Route) -> (r: (
    i64,
    i32,
))
    requires
        route.stops@.len() > 0,
        i64::MIN <= origin_departure_time + route.stops@[terminal_index(route.stops@)].arrival_time
            <= i64::MAX,
    ensures
        r.0 == origin_departure_time + route.stops@[terminal_index(route.stops@)].arrival_time,
        r.1 == offset_seconds,
{
    (get_terminal_arrival_time(origin_departure_time, route), offset_seconds)
}

/// Arrival, in seconds from day zero of the schedule's clock, of schedule
/// `s` at station `station_id` of its route: the day of the schedule, plus
/// the origin departure time, plus the arrival offset of the first stop at
/// that station; `None` when the route does not call there.
pub fn get_station_arrival_time(s: &TrainSchedule, route: &Route, station_id: u64) -> (r: Option<i64>)
    ensures
        match r {
            None => first_stop_pos(route.stops@, station_id) == -1,
            Some(t) => {
                let p = first_stop_pos(route.stops@, station_id);
                &&& 0 <= p < route.stops@.len()
                &&& t == s.date * (SECONDS_PER_DAY as int) + s.origin_departure_time
                    + route.stops@[p].arrival_time
            },
        },
{
    let stops = &route.stops;
    let mut i: usize = 0;
    while i < stops.len()
        invariant
            i <= stops@.len(),
            stops@ == route.stops@,
            first_stop_pos(stops@.take(i as int), station_id) == -1,
        decreases stops@.len() - i,
    {
        proof {
            assert(stops@.take(i + 1).drop_last() =~= stops@.take(i as int));
        }
        if stops[i].station_id == station_id {
            proof {
                assert(stops@.take(i + 1).last() == stops@[i as int]);
                assert(first_stop_pos(stops@.take(i + 1), station_id) == i);
                lemma_first_stop_pos_prefix(stops@, station_id, i + 1);
            }
            let t = s.date as i64 * SECONDS_PER_DAY as i64 + s.origin_departure_time as i64
                + stops[i].arrival_time as i64;
            return Some(t);
        }
        i += 1;
    }
    proof {
        assert(stops@.take(i as int) =~= stops@);
    }
    None
}

proof fn lemma_first_stop_pos_prefix(stops: Seq<Stop>, st: u64, n: int)
    requires
        0 <= n <= stops.len(),
        first_stop_pos(stops.take(n), st) >= 0,
    ensures
        first_stop_pos(stops, st) == first_stop_pos(stops.take(n), st),
        first_stop_pos(stops, st) < n,
    decreases stops.len(),
{
    if stops.len() > n {
        assert(stops.drop_last().take(n) =~= stops.take(n));
        lemma_first_stop_pos_prefix(stops.drop_last(), st, n);
    } else {
        assert(stops.take(n) =~= stops);
        lemma_first_stop_pos_bound(stops, st);
    }
}

proof fn lemma_first_stop_pos_bound(stops: Seq<Stop>, st: u64)
    ensures
        -1 <= first_stop_pos(stops, st) < stops.len(),
    decreases stops.len(),
{
    if stops.len() > 0 {
        lemma_first_stop_pos_bound(stops.drop_last(), st);
    }
}

/// Day from which new schedules are planned: the later of `begin` and the
/// latest day already planned.
pub open spec fn plan_start(begin: i32, latest: Option<i32>) -> i32 {
    match latest {
        Some(l) => if l > begin {
            l
        } else {
            begin
        },
        None => begin,
    }
}

/// Number of days still to plan so that `days` days from `begin` are covered.
pub open spec fn days_to_plan(begin: i32, days: i32, latest: Option<i32>) -> int {
    days - (plan_start(begin, latest) - begin)
}

/// The schedules to add: for each day still to plan, in order, one per train
/// with its default departure time and route.
pub open spec fn planned_schedules(begin: i32, days: i32, latest: Option<i32>, trains: Seq<Train>) -> Seq<
    TrainSchedule,
> {
    let n = days_to_plan(begin, days, latest);
    if n <= 0 {
        Seq::empty()
    } else {
        Seq::new(
            (n * trains.len()) as nat,
            |k: int|
                {
                    let t = trains[k % (trains.len() as int)];
                    TrainSchedule {
                        id: None,
                        train_id: t.id->0,
                        date: (plan_start(begin, latest) + k / (trains.len() as int)) as i32,
                        origin_departure_time: t.default_origin_departure_time,
                        route_id: t.default_route_id,
                    }
                },
        )
    }
}

/// The schedules to add so that `days` days from `begin` are planned, given
/// the latest day already planned (`None` when none is).
pub fn auto_plan_schedule(begin_date: i32, days: i32, latest_date: Option<i32>, trains: &Vec<Train>) -> (r:
    Vec<TrainSchedule>)
    requires
        days_to_plan(begin_date, days, latest_date) > 0 ==> {
            &&& forall|k: int| 0 <= k < trains@.len() ==> (#[trigger] trains@[k]).id is Some
            &&& days_to_plan(begin_date, days, latest_date) * trains@.len() <= usize::MAX
            &&& plan_start(begin_date, latest_date) + days_to_plan(begin_date, days, latest_date) <= i32::MAX + 1
        },
        i32::MIN <= days_to_plan(begin_date, days, latest_date) <= i32::MAX,
    ensures
        r@ == planned_schedules(begin_date, days, latest_date, trains@),
{
    let start = match latest_date {
        Some(l) => if l > begin_date {
            l
        } else {
            begin_date
        },
        None => begin_date,
    };
    let n = (days as i64 - (start as i64 - begin_date as i64)) as i32;
    let mut r: Vec<TrainSchedule> = Vec::new();
    if n <= 0 {
        return r;
    }
    let ghost total = n * trains@.len();
    let mut day: i32 = 0;
    while day < n
        invariant
            0 <= day <= n,
            n == days_to_plan(begin_date, days, latest_date),
            start == plan_start(begin_date, latest_date),
            n * trains@.len() <= usize::MAX,
            start + n <= i32::MAX + 1,
            forall|k: int| 0 <= k < trains@.len() ==> (#[trigger] trains@[k]).id is Some,
            r@ == planned_schedules(begin_date, days, latest_date, trains@).take(day * trains@.len()),
            r@.len() == day * trains@.len(),
        decreases n - day,
    {
        let mut t: usize = 0;
        let ghost full = planned_schedules(begin_date, days, latest_date, trains@);
        proof {
            assert(day * trains@.len() + trains@.len() == (day + 1) * trains@.len()) by (nonlinear_arith);
            assert((day + 1) * trains@.len() <= n * trains@.len()) by (nonlinear_arith)
                requires
                    day + 1 <= n,
            ;
        }
        while t < trains.len()
            invariant
                0 <= day < n,
                t <= trains@.len(),
                n == days_to_plan(begin_date, days, latest_date),
                start == plan_start(begin_date, latest_date),
                start + n <= i32::MAX + 1,
                full == planned_schedules(begin_date, days, latest_date, trains@),
                full.len() == n * trains@.len(),
                (day + 1) * trains@.len() <= n * trains@.len(),
                forall|k: int| 0 <= k < trains@.len() ==> (#[trigger] trains@[k]).id is Some,
                r@ == full.take(day * trains@.len() + t),
                r@.len() == day * trains@.len() + t,
            decreases trains@.len() - t,
        {
            let tr = trains[t];
            let id = match tr.id {
                Some(id) => id,
                None => 0,
            };
            let ghost k = day * trains@.len() + t;
            proof {
                assert(k % (trains@.len() as int) == t && k / (trains@.len() as int) == day) by (nonlinear_arith)
                    requires
                        k == day * trains@.len() + t,
                        0 <= t < trains@.len(),
                        0 <= day,
                ;
                assert(k < full.len()) by (nonlinear_arith)
                    requires
                        k == day * trains@.len() + t,
                        t < trains@.len(),
                        (day + 1) * trains@.len() <= full.len(),
                ;
            }
            let sched = TrainSchedule {
                id: None,
                train_id: id,
                date: start + day,
                origin_departure_time: tr.default_origin_departure_time,
                route_id: tr.default_route_id,
            };
            proof {
                assert(sched == full[k]);
                assert(full.take(k + 1) =~= full.take(k).push(sched));
            }
            r.push(sched);
            t += 1;
        }
        day += 1;
    }
    proof {
        assert(r@ =~= planned_schedules(begin_date, days, latest_date, trains@));
    }
    r
}

/// The train schedule service; the repositories and the route service are
/// reached by the caller.
pub struct TrainScheduleServiceImpl<RS, TR, TSR, RR> {
    pub route_service: Arc<RS>,
    pub train_repository: Arc<TR>,
    pub train_schedule_repository: Arc<TSR>,
    pub route_repository: Arc<RR>,
    pub tz_offset_hour: i32,
}

impl<RS, TR, TSR, RR> TrainScheduleServiceImpl<RS, TR, TSR, RR> {
    /// A service over the route service, the three repositories and the
    /// time zone offset (hours east of UTC).
    pub fn new(
        route_service: Arc<RS>,
        train_repository: Arc<TR>,
        train_schedule_repository: Arc<TSR>,
        route_repository: Arc<RR>,
        tz_offset_hour: i32,
    ) -> (s: Self)
        ensures
            s.route_service == route_service,
            s.train_repository == train_repository,
            s.train_schedule_repository == train_schedule_repository,
            s.route_repository == route_repository,
            s.tz_offset_hour == tz_offset_hour,
    {
        Self { route_service, train_repository, train_schedule_repository, route_repository, tz_offset_hour }
    }

    /// The arrival of schedule `s` at station `station_id`, as a UTC instant
    /// in seconds with the UTC offset, in seconds, that it is shown in: the
    /// arrival on the schedule's local clock, read in the service's time zone
    /// (`tz_offset_hour` hours east of UTC), which is also the offset shown.
    /// `InvalidStationId` when the route does not call there.
    pub fn station_arrival_instant(&self, s: &TrainSchedule, route: &Route, station_id: u64) -> (r: Result<
        (i64, i32),
        TrainScheduleServiceError,
    >)
        requires
            -23 <= self.tz_offset_hour <= 23,
        ensures
            match r {
                Err(e) => first_stop_pos(route.stops@, station_id) == -1 && e
                    == TrainScheduleServiceError::InvalidStationId(station_id),
                Ok((t, off)) => {
                    let p = first_stop_pos(route.stops@, station_id);
                    &&& 0 <= p < route.stops@.len()
                    &&& off == self.tz_offset_hour * 3600
                    &&& t == s.date * (SECONDS_PER_DAY as int) + s.origin_departure_time
                        + route.stops@[p].arrival_time - off
                },
            },
    {
        match get_station_arrival_time(s, route, station_id) {
            None => Err(TrainScheduleServiceError::InvalidStationId(station_id)),
            Some(local) => {
                let offset: i32 = self.tz_offset_hour * 3600;
                Ok((local - offset as i64, offset))
            },
        }
    }

    /// The journeys with one change between each pair of stations that leave
    /// on day `date`, given the schedules of that day and of the day before
    /// and the routes: the legs are those of the day's schedules, the first
    /// leg must leave its origin on `date`, the change lasts between ten
    /// minutes and three hours, and each pair lists a journey once.
    pub fn transfer_schedules(
        &self,
        date: i32,
        pairs: &Vec<(u64, u64)>,
        schedules_today: &Vec<TrainSchedule>,
        schedules_yesterday: &Vec<TrainSchedule>,
        routes: &Vec<Route>,
    ) -> (r: Vec<(Vec<u64>, u64, u64, Option<u64>)>)
        requires
            forall|k: int| 0 <= k < schedules_today@.len() ==> legs_fit(#[trigger] schedules_today@[k], routes@),
            transfer_inputs_fit(
                date,
                pairs@,
                by_departure(all_legs(schedules_today@, routes@)),
                schedules_today@ + schedules_yesterday@,
                routes@,
            ),
        ensures
            journey_views(r@) == transfer_journeys(
                date,
                pairs@,
                by_departure(all_legs(schedules_today@, routes@)),
                schedules_today@ + schedules_yesterday@,
                routes@,
            ),
            forall|k: int|
                #![trigger r@[k]]
                0 <= k < r@.len() ==> valid_listed_transfer(
                    (r@[k].0@, r@[k].1, r@[k].2, r@[k].3),
                    date,
                    pairs@,
                    by_departure(all_legs(schedules_today@, routes@)),
                    schedules_today@ + schedules_yesterday@,
                    routes@,
                ),
            lists_every_valid_transfer(
                journey_views(r@),
                date,
                pairs@,
                by_departure(all_legs(schedules_today@, routes@)),
                schedules_today@ + schedules_yesterday@,
                routes@,
            ),
    {
        let conns = build_connections(schedules_today, routes);
        let index = build_outgoing_index(&conns);
        let mut schedules: Vec<TrainSchedule> = Vec::new();
        let mut k: usize = 0;
        while k < schedules_today.len()
            invariant
                k <= schedules_today@.len(),
                schedules@ == schedules_today@.take(k as int),
            decreases schedules_today@.len() - k,
        {
            proof {
                assert(schedules_today@.take(k + 1) =~= schedules_today@.take(k as int).push(schedules_today@[k as int]));
            }
            schedules.push(schedules_today[k]);
            k += 1;
        }
        let mut k: usize = 0;
        while k < schedules_yesterday.len()
            invariant
                k <= schedules_yesterday@.len(),
                schedules@ == schedules_today@ + schedules_yesterday@.take(k as int),
            decreases schedules_yesterday@.len() - k,
        {
            proof {
                assert(schedules_today@ + schedules_yesterday@.take(k + 1) =~= (schedules_today@
                    + schedules_yesterday@.take(k as int)).push(schedules_yesterday@[k as int]));
            }
            schedules.push(schedules_yesterday[k]);
            k += 1;
        }
        proof {
            assert(schedules_today@.take(schedules_today@.len() as int) =~= schedules_today@);
            assert(schedules_yesterday@.take(k as int) =~= schedules_yesterday@);
        }
        let ghost cs = conns@;
        let mut out: Vec<(Vec<u64>, u64, u64, Option<u64>)> = Vec::new();
        let mut p: usize = 0;
        while p < pairs.len()
            invariant
                p <= pairs@.len(),
                cs == conns@,
                cs == by_departure(all_legs(schedules_today@, routes@)),
                schedules@ == schedules_today@ + schedules_yesterday@,
                forall|st: u64|
                    #[trigger] index@.contains_key(st) <==> exists|k: int|
                        0 <= k < conns@.len() && conns@[k].departure_station == st,
                forall|st: u64|
                    #[trigger] index@.contains_key(st) ==> index@[st]@ == indices_by_departure(
                        conns@,
                        departing(conns@, st),
                    ),
                transfer_inputs_fit(date, pairs@, cs, schedules@, routes@),
                journey_views(out@) == transfer_journeys(date, pairs@.take(p as int), cs, schedules@, routes@),
            decreases pairs@.len() - p,
        {
            let o = pairs[p].0;
            let d = pairs[p].1;
            proof {
                assert(pairs@.take(p + 1).drop_last() =~= pairs@.take(p as int));
                assert(pairs@.take(p + 1).last() == pairs@[p as int]);
                assert forall|k: int|
                    0 <= k < outgoing(cs, o).len() implies first_leg_fits(
                    date,
                    o,
                    cs[#[trigger] outgoing(cs, o)[k] as int],
                    schedules@,
                    routes@,
                ) by {
                    assert(pairs@[p as int].0 == o);
                }
            }
            let found = pair_transfers(date, o, d, &conns, &index, &schedules, routes);
            let ghost out0 = out@;
            let mut t: usize = 0;
            while t < found.len()
                invariant
                    t <= found@.len(),
                    journey_views(out@) == journey_views(out0) + found@.take(t as int).map_values(
                        |e: (u64, u64, u64)| journey_of(o, d, e),
                    ),
                decreases found@.len() - t,
            {
                let e = found[t];
                let mut ids: Vec<u64> = Vec::new();
                ids.push(e.0);
                ids.push(e.1);
                proof {
                    assert(ids@ =~= seq![e.0, e.1]);
                    assert(found@.take(t + 1).map_values(|e: (u64, u64, u64)| journey_of(o, d, e))
                        =~= found@.take(t as int).map_values(|e: (u64, u64, u64)| journey_of(o, d, e)).push(
                        journey_of(o, d, e),
                    ));
                }
                let ghost pre = out@;
                out.push((ids, o, d, Some(e.2)));
                proof {
                    assert(journey_views(out@) =~= journey_views(pre).push(journey_of(o, d, e)));
                }
                t += 1;
            }
            proof {
                assert(found@.take(t as int) =~= found@);
            }
            p += 1;
        }
        let n_conns: usize = conns.len();
        proof {
            assert(cs.len() == n_conns);
            assert(pairs@.take(p as int) =~= pairs@);
            assert forall|k: int| #![trigger out@[k]] 0 <= k < out@.len() implies valid_listed_transfer(
                (out@[k].0@, out@[k].1, out@[k].2, out@[k].3),
                date,
                pairs@,
                cs,
                schedules@,
                routes@,
            ) by {
                let x = journey_views(out@)[k];
                assert(x == (out@[k].0@, out@[k].1, out@[k].2, out@[k].3));
                assert(journey_views(out@).contains(x));
                law_listed_transfers_keep_the_change_window(date, pairs@, cs, schedules@, routes@, x);
            }
            assert forall|pp: int, i: int, j: int|
                #![trigger pairs@[pp], cs[i], cs[j]]
                0 <= pp < pairs@.len() && 0 <= i < cs.len() && 0 <= j < cs.len() && cs[i].departure_station
                    == pairs@[pp].0 && cs[j].departure_station == cs[i].arrival_station && cs[j].arrival_station
                    == pairs@[pp].1 && cs[i].train_schedule_id != cs[j].train_schedule_id && cs[i].arrival_time
                    + 600 <= cs[j].departure_time && cs[j].departure_time <= cs[i].arrival_time + 10800
                    && match schedule_stop(schedules@, routes@, cs[i].train_schedule_id, pairs@[pp].0) {
                    Some(q) => q.0.date + (offset(q.0) + q.1.departure_time) / 86400 == date,
                    None => false,
                } implies journey_views(out@).contains(
                (
                    seq![cs[i].train_schedule_id, cs[j].train_schedule_id],
                    pairs@[pp].0,
                    pairs@[pp].1,
                    Some(cs[i].arrival_station),
                ),
            ) by {
                law_valid_transfers_are_listed(date, pairs@, cs, schedules@, routes@, pp, i, j);
            }
        }
        out
    }
    /// The schedules, among those of day `date` and of the day before, that
    /// leave the first station of some pair on day `date` and call at its
    /// second station later, each with the first such pair in the order
    /// given, sorted by origin departure time (equal times keep the order of
    /// the schedules).
    pub fn direct_schedules(
        &self,
        date: i32,
        pairs: &Vec<(u64, u64)>,
        schedules_today: &Vec<TrainSchedule>,
        schedules_yesterday: &Vec<TrainSchedule>,
        routes: &Vec<Route>,
    ) -> (r: Vec<(TrainSchedule, u64, u64)>)
        requires
            direct_inputs_fit(schedules_today@ + schedules_yesterday@, routes@, pairs@),
        ensures
            r@ == by_origin_departure(direct_found(date, schedules_today@ + schedules_yesterday@, routes@, pairs@)),
            forall|k: int|
                0 <= k < r@.len() ==> valid_direct_trip(
                    #[trigger] r@[k],
                    date,
                    schedules_today@ + schedules_yesterday@,
                    routes@,
                    pairs@,
                ),
            lists_every_direct_trip(r@, date, schedules_today@ + schedules_yesterday@, routes@, pairs@),
            forall|a: int, b: int|
                0 <= a <= b < r@.len() ==> (#[trigger] r@[a]).0.origin_departure_time <= (
                #[trigger] r@[b]).0.origin_departure_time,
    {
        let ghost all = schedules_today@ + schedules_yesterday@;
        let mut found: Vec<(TrainSchedule, u64, u64)> = Vec::new();
        let mut k: usize = 0;
        while k < schedules_today.len()
            invariant
                all == schedules_today@ + schedules_yesterday@,
                k <= schedules_today@.len(),
                direct_inputs_fit(all, routes@, pairs@),
                found@ == direct_found(date, all.take(k as int), routes@, pairs@),
            decreases schedules_today@.len() - k,
        {
            proof {
                assert(all[k as int] == schedules_today@[k as int]);
            }
            add_direct(&mut found, date, Ghost(all), Ghost(k as int), &schedules_today[k], routes, pairs);
            k += 1;
        }
        let mut k: usize = 0;
        while k < schedules_yesterday.len()
            invariant
                all == schedules_today@ + schedules_yesterday@,
                k <= schedules_yesterday@.len(),
                direct_inputs_fit(all, routes@, pairs@),
                found@ == direct_found(date, all.take(schedules_today@.len() + k), routes@, pairs@),
            decreases schedules_yesterday@.len() - k,
        {
            proof {
                assert(all[schedules_today@.len() + k] == schedules_yesterday@[k as int]);
            }
            add_direct(
                &mut found,
                date,
                Ghost(all),
                Ghost(schedules_today@.len() + k),
                &schedules_yesterday[k],
                routes,
                pairs,
            );
            k += 1;
        }
        proof {
            assert(all.take(schedules_today@.len() + k) =~= all);
        }
        let mut keyed: Vec<(u32, (TrainSchedule, u64, u64))> = Vec::new();
        let mut i: usize = 0;
        while i < found.len()
            invariant
                i <= found@.len(),
                keyed@ == found@.take(i as int).map_values(
                    |e: (TrainSchedule, u64, u64)| (departure_key(e.0.origin_departure_time), e),
                ),
            decreases found@.len() - i,
        {
            let e = found[i];
            let key = (e.0.origin_departure_time as i64 + 0x8000_0000i64) as u32;
            proof {
                assert(found@.take(i + 1).map_values(
                    |e: (TrainSchedule, u64, u64)| (departure_key(e.0.origin_departure_time), e),
                ) =~= found@.take(i as int).map_values(
                    |e: (TrainSchedule, u64, u64)| (departure_key(e.0.origin_departure_time), e),
                ).push((departure_key(e.0.origin_departure_time), e)));
            }
            keyed.push((key, e));
            i += 1;
        }
        proof {
            assert(found@.take(i as int) =~= found@);
        }
        let sorted = sort_by_key(&keyed);
        let mut r: Vec<(TrainSchedule, u64, u64)> = Vec::new();
        let mut t: usize = 0;
        while t < sorted.len()
            invariant
                t <= sorted@.len(),
                r@ == sorted@.take(t as int).map_values(|p: (u32, (TrainSchedule, u64, u64))| p.1),
            decreases sorted@.len() - t,
        {
            proof {
                assert(sorted@.take(t + 1).map_values(|p: (u32, (TrainSchedule, u64, u64))| p.1)
                    =~= sorted@.take(t as int).map_values(|p: (u32, (TrainSchedule, u64, u64))| p.1).push(
                    sorted@[t as int].1,
                ));
            }
            r.push(sorted[t].1);
            t += 1;
        }
        proof {
            assert(sorted@.take(t as int) =~= sorted@);
            assert forall|k: int| 0 <= k < r@.len() implies valid_direct_trip(
                #[trigger] r@[k],
                date,
                all,
                routes@,
                pairs@,
            ) by {
                assert(r@.contains(r@[k]));
                law_listed_direct_trips_leave_on_the_date(date, all, routes@, pairs@, r@[k]);
            }
            law_direct_trips_are_all_listed(date, all, routes@, pairs@);
            law_direct_trips_by_departure_time(direct_found(date, all, routes@, pairs@));
        }
        r
    }
}

/// Errors of the train schedule service.
#[derive(Debug, Clone, PartialEq, Eq)]
pub enum TrainScheduleServiceError {
    InfrastructureError(crate::domain::RepositoryError),
    InvalidTrainId(u64),
    InvalidTrainNumber(String),
    InvalidStationId(u64),
}

/// The schedule to add for train `train_id` on day `date`, from the train
/// found under that id: its default departure time and route.
pub fn add_schedule(
    train_id: u64,
    date: i32,
    found: Result<Option<Train>, crate::domain::RepositoryError>,
) -> (r: Result<TrainSchedule, TrainScheduleServiceError>)
    ensures
        match found {
            Err(e) => r == Err::<TrainSchedule, _>(TrainScheduleServiceError::InfrastructureError(e)),
            Ok(None) => r == Err::<TrainSchedule, _>(TrainScheduleServiceError::InvalidTrainId(train_id)),
            Ok(Some(t)) => r == Ok::<TrainSchedule, TrainScheduleServiceError>(
                TrainSchedule {
                    id: None,
                    train_id,
                    date,
                    origin_departure_time: t.default_origin_departure_time,
                    route_id: t.default_route_id,
                },
            ),
        },
{
    match found {
        Err(e) => Err(TrainScheduleServiceError::InfrastructureError(e)),
        Ok(None) => Err(TrainScheduleServiceError::InvalidTrainId(train_id)),
        Ok(Some(t)) => Ok(
            TrainSchedule {
                id: None,
                train_id,
                date,
                origin_departure_time: t.default_origin_departure_time,
                route_id: t.default_route_id,
            },
        ),
    }
}

/// The train found by number for a schedule lookup: a number that the store
/// finds inconsistent is reported as an invalid train number.
pub fn train_for_number(train_number: String, found: Result<Train, crate::domain::RepositoryError>) -> (r: Result<
    Train,
    TrainScheduleServiceError,
>)
    ensures
        match found {
            Ok(t) => r == Ok::<Train, TrainScheduleServiceError>(t),
            Err(crate::domain::RepositoryError::InconsistentState(_)) => r matches Err(
                TrainScheduleServiceError::InvalidTrainNumber(n),
            ) && n@ == train_number@,
            Err(e) => r == Err::<Train, _>(TrainScheduleServiceError::InfrastructureError(e)),
        },
{
    match found {
        Ok(t) => Ok(t),
        Err(crate::domain::RepositoryError::InconsistentState(m)) => Err(
            TrainScheduleServiceError::InvalidTrainNumber(train_number),
        ),
        Err(e) => Err(TrainScheduleServiceError::InfrastructureError(e)),
    }
}

proof fn lemma_dedup_contains<A>(s: Seq<A>, x: A)
    ensures
        dedup(s).contains(x) <==> s.contains(x),
    decreases s.len(),
{
    if s.len() > 0 {
        let d = dedup(s.drop_last());
        lemma_dedup_contains(s.drop_last(), x);
        if s.drop_last().contains(x) {
            let k = choose|k: int| 0 <= k < s.drop_last().len() && s.drop_last()[k] == x;
            assert(s[k] == x);
        }
        if s.contains(x) && !s.drop_last().contains(x) {
            let k = choose|k: int| 0 <= k < s.len() && s[k] == x;
            if k < s.len() - 1 {
                assert(s.drop_last()[k] == x);
            }
        }
        if !d.contains(s.last()) {
            let e = d.push(s.last());
            if e.contains(x) {
                let k = choose|k: int| 0 <= k < e.len() && e[k] == x;
                if k < d.len() {
                    assert(d[k] == x);
                }
            }
            if d.contains(x) {
                let k = choose|k: int| 0 <= k < d.len() && d[k] == x;
                assert(e[k] == x);
            }
            assert(e[d.len() as int] == s.last());
        }
    }
}

proof fn lemma_first_legs_contains(
    date: i32,
    origin: u64,
    dest: u64,
    conns: Seq<Connection>,
    schedules: Seq<TrainSchedule>,
    routes: Seq<Route>,
    list: Seq<usize>,
    t: (u64, u64, u64),
)
    ensures
        first_legs(date, origin, dest, conns, schedules, routes, list).contains(t) <==> exists|k: int|
            0 <= k < list.len() && first_leg_ok(date, origin, #[trigger] conns[list[k] as int], schedules, routes)
                && second_legs(
                conns[list[k] as int],
                dest,
                conns,
                outgoing(conns, conns[list[k] as int].arrival_station),
            ).contains(t),
    decreases list.len(),
{
    if list.len() > 0 {
        let prev = first_legs(date, origin, dest, conns, schedules, routes, list.drop_last());
        let here = first_legs(date, origin, dest, conns, schedules, routes, list);
        lemma_first_legs_contains(date, origin, dest, conns, schedules, routes, list.drop_last(), t);
        let c1 = conns[list.last() as int];
        let more = second_legs(c1, dest, conns, outgoing(conns, c1.arrival_station));
        if here.contains(t) {
            let m = choose|m: int| 0 <= m < here.len() && here[m] == t;
            if m < prev.len() {
                assert(prev[m] == here[m]);
                assert(prev.contains(t));
                let k = choose|k: int|
                    0 <= k < list.drop_last().len() && first_leg_ok(
                        date,
                        origin,
                        #[trigger] conns[list.drop_last()[k] as int],
                        schedules,
                        routes,
                    ) && second_legs(
                        conns[list.drop_last()[k] as int],
                        dest,
                        conns,
                        outgoing(conns, conns[list.drop_last()[k] as int].arrival_station),
                    ).contains(t);
                assert(list.drop_last()[k] == list[k]);
            } else {
                assert(first_leg_ok(date, origin, c1, schedules, routes));
                assert(more[m - prev.len()] == t);
                assert(more.contains(t));
                assert(conns[list[list.len() - 1] as int] == c1);
            }
        }
        if exists|k: int|
            0 <= k < list.len() && first_leg_ok(date, origin, #[trigger] conns[list[k] as int], schedules, routes)
                && second_legs(
                conns[list[k] as int],
                dest,
                conns,
                outgoing(conns, conns[list[k] as int].arrival_station),
            ).contains(t) {
            let k = choose|k: int|
                0 <= k < list.len() && first_leg_ok(date, origin, #[trigger] conns[list[k] as int], schedules, routes)
                    && second_legs(
                    conns[list[k] as int],
                    dest,
                    conns,
                    outgoing(conns, conns[list[k] as int].arrival_station),
                ).contains(t);
            if k < list.len() - 1 {
                assert(list.drop_last()[k] == list[k]);
                assert(first_leg_ok(date, origin, conns[list.drop_last()[k] as int], schedules, routes));
                assert(prev.contains(t));
                let m = choose|m: int| 0 <= m < prev.len() && prev[m] == t;
                assert(here[m] == t);
            } else {
                let m = choose|m: int| 0 <= m < more.len() && more[m] == t;
                assert(here[prev.len() + m] == t);
            }
        }
    }
}

proof fn lemma_departing_contains(c: Seq<Connection>, st: u64, i: usize)
    requires
        c.len() <= usize::MAX,
    ensures
        departing(c, st).contains(i) <==> (i < c.len() && c[i as int].departure_station == st),
    decreases c.len(),
{
    if c.len() > 0 {
        let prev = departing(c.drop_last(), st);
        lemma_departing_contains(c.drop_last(), st, i);
        if i < c.len() - 1 {
            assert(c.drop_last()[i as int] == c[i as int]);
        }
        if c.last().departure_station == st {
            let now = prev.push((c.len() - 1) as usize);
            if now.contains(i) {
                let k = choose|k: int| 0 <= k < now.len() && now[k] == i;
                if k < prev.len() {
                    assert(prev[k] == i);
                }
            }
            if prev.contains(i) {
                let k = choose|k: int| 0 <= k < prev.len() && prev[k] == i;
                assert(now[k] == i);
            }
            if i == c.len() - 1 {
                assert(now[prev.len() as int] == i);
            }
        }
    }
}

proof fn lemma_outgoing_contains(conns: Seq<Connection>, st: u64, i: usize)
    requires
        conns.len() <= usize::MAX,
    ensures
        outgoing(conns, st).contains(i) <==> (i < conns.len() && conns[i as int].departure_station == st),
{
    let idx = departing(conns, st);
    let keyed = keyed_indices(conns, idx);
    let sorted = sorted_by_key(keyed);
    let out = outgoing(conns, st);
    lemma_sorted_by_key(keyed);
    lemma_departing_contains(conns, st, i);
    assert(out.len() == sorted.len());
    if out.contains(i) {
        let k = choose|k: int| 0 <= k < out.len() && out[k] == i;
        assert(sorted[k].1 == i);
        vstd::seq_lib::to_multiset_contains(sorted, sorted[k]);
        vstd::seq_lib::to_multiset_contains(keyed, sorted[k]);
        assert(sorted.contains(sorted[k]));
        let j = choose|j: int| 0 <= j < keyed.len() && keyed[j] == sorted[k];
        assert(keyed[j].1 == idx[j]);
        assert(idx.contains(i));
    }
    if i < conns.len() && conns[i as int].departure_station == st {
        let j = choose|j: int| 0 <= j < idx.len() && idx[j] == i;
        let key = (conns[i as int].departure_time, i);
        assert(keyed[j] == key);
        assert(keyed.contains(key));
        vstd::seq_lib::to_multiset_contains(keyed, key);
        vstd::seq_lib::to_multiset_contains(sorted, key);
        let k = choose|k: int| 0 <= k < sorted.len() && sorted[k] == key;
        assert(out[k] == i);
    }
}

proof fn lemma_second_legs_contains(c1: Connection, dest: u64, conns: Seq<Connection>, list: Seq<usize>, t: (
    u64,
    u64,
    u64,
))
    ensures
        second_legs(c1, dest, conns, list).contains(t) <==> exists|k: int|
            0 <= k < list.len() && second_leg_ok(c1, #[trigger] conns[list[k] as int], dest) && t == (
                c1.train_schedule_id,
                conns[list[k] as int].train_schedule_id,
                c1.arrival_station,
            ),
    decreases list.len(),
{
    if list.len() > 0 {
        let prev = second_legs(c1, dest, conns, list.drop_last());
        let here = second_legs(c1, dest, conns, list);
        lemma_second_legs_contains(c1, dest, conns, list.drop_last(), t);
        let c2 = conns[list.last() as int];
        if here.contains(t) {
            let m = choose|m: int| 0 <= m < here.len() && here[m] == t;
            if m < prev.len() {
                assert(prev[m] == here[m]);
                assert(prev.contains(t));
                let k = choose|k: int|
                    0 <= k < list.drop_last().len() && second_leg_ok(c1, #[trigger] conns[list.drop_last()[k] as int], dest)
                        && t == (c1.train_schedule_id, conns[list.drop_last()[k] as int].train_schedule_id, c1.arrival_station);
                assert(list.drop_last()[k] == list[k]);
            } else {
                assert(second_leg_ok(c1, conns[list[list.len() - 1] as int], dest));
            }
        }
        if exists|k: int|
            0 <= k < list.len() && second_leg_ok(c1, #[trigger] conns[list[k] as int], dest) && t == (
                c1.train_schedule_id,
                conns[list[k] as int].train_schedule_id,
                c1.arrival_station,
            ) {
            let k = choose|k: int|
                0 <= k < list.len() && second_leg_ok(c1, #[trigger] conns[list[k] as int], dest) && t == (
                    c1.train_schedule_id,
                    conns[list[k] as int].train_schedule_id,
                    c1.arrival_station,
                );
            if k < list.len() - 1 {
                assert(list.drop_last()[k] == list[k]);
                assert(second_leg_ok(c1, conns[list.drop_last()[k] as int], dest));
                assert(prev.contains(t));
                let m = choose|m: int| 0 <= m < prev.len() && prev[m] == t;
                assert(here[m] == t);
            } else {
                assert(here[prev.len() as int] == t);
            }
        }
    }
}

/// The legs of a day come out sorted by departure time, each leg of the
/// schedules exactly once; and each list of the departure index holds the
/// connections leaving its station, by departure time.
pub proof fn law_connections_sorted(schedules: Seq<TrainSchedule>, routes: Seq<Route>, st: u64)
    ensures
        forall|i: int, j: int|
            0 <= i <= j < by_departure(all_legs(schedules, routes)).len() ==> by_departure(
                all_legs(schedules, routes),
            )[i].departure_time <= by_departure(all_legs(schedules, routes))[j].departure_time,
        sorted_by_key(keyed_by_departure(all_legs(schedules, routes))).to_multiset() == keyed_by_departure(
            all_legs(schedules, routes),
        ).to_multiset(),
        forall|a: int, b: int|
            0 <= a <= b < outgoing(by_departure(all_legs(schedules, routes)), st).len() ==> by_departure(
                all_legs(schedules, routes),
            )[outgoing(by_departure(all_legs(schedules, routes)), st)[a] as int].departure_time
                <= by_departure(all_legs(schedules, routes))[outgoing(
                by_departure(all_legs(schedules, routes)),
                st,
            )[b] as int].departure_time,
{
    let c = all_legs(schedules, routes);
    let keyed = keyed_by_departure(c);
    let sorted = sorted_by_key(keyed);
    lemma_sorted_by_key(keyed);
    let out = by_departure(c);
    assert forall|k: int| 0 <= k < sorted.len() implies #[trigger] sorted[k].0 == sorted[k].1.departure_time by {
        vstd::seq_lib::to_multiset_contains(sorted, sorted[k]);
        vstd::seq_lib::to_multiset_contains(keyed, sorted[k]);
        assert(sorted.contains(sorted[k]));
        assert(keyed.contains(sorted[k]));
    }
    assert forall|i: int, j: int| 0 <= i <= j < out.len() implies out[i].departure_time
        <= out[j].departure_time by {
        assert(sorted[i].0 <= sorted[j].0);
        assert(sorted[i].0 == sorted[i].1.departure_time);
        assert(sorted[j].0 == sorted[j].1.departure_time);
    }
    lemma_outgoing(out, st);
}

/// The schedule of the train on the day of the requested departure, for its
/// terminal arrival: none on that day means the train number is invalid.
pub fn schedule_on_date(
    train_number: String,
    found: Result<Option<TrainSchedule>, crate::domain::RepositoryError>,
) -> (r: Result<TrainSchedule, TrainScheduleServiceError>)
    ensures
        match found {
            Err(e) => r == Err::<TrainSchedule, _>(TrainScheduleServiceError::InfrastructureError(e)),
            Ok(None) => r matches Err(TrainScheduleServiceError::InvalidTrainNumber(n)) && n@ == train_number@,
            Ok(Some(s)) => r == Ok::<TrainSchedule, TrainScheduleServiceError>(s),
        },
{
    match found {
        Err(e) => Err(TrainScheduleServiceError::InfrastructureError(e)),
        Ok(None) => Err(TrainScheduleServiceError::InvalidTrainNumber(train_number)),
        Ok(Some(s)) => Ok(s),
    }
}

/// The route of a schedule, for its terminal arrival: a missing route is an
/// inconsistent store.
pub fn route_of_schedule(found: Result<Option<Route>, crate::domain::RepositoryError>) -> (r: Result<
    Route,
    TrainScheduleServiceError,
>)
    ensures
        match found {
            Err(e) => r == Err::<Route, _>(TrainScheduleServiceError::InfrastructureError(e)),
            Ok(None) => r matches Err(
                TrainScheduleServiceError::InfrastructureError(crate::domain::RepositoryError::InconsistentState(_)),
            ),
            Ok(Some(rt)) => r == Ok::<Route, TrainScheduleServiceError>(rt),
        },
{
    match found {
        Err(e) => Err(TrainScheduleServiceError::InfrastructureError(e)),
        Ok(None) => Err(
            TrainScheduleServiceError::InfrastructureError(
                crate::domain::RepositoryError::InconsistentState("no route found for route id".to_owned()),
            ),
        ),
        Ok(Some(rt)) => Ok(rt),
    }
}

/// The changes listed for a pair of stations are exactly the valid ones: a
/// change (first schedule, second schedule, change station) is listed for
/// `origin` to `dest` on `date` exactly when some leg leaves `origin` on
/// `date`, and some leg of another schedule leaves the station where the
/// first one arrives, 10 to 180 minutes after that arrival, towards `dest`.
pub proof fn law_transfers_are_exactly_the_valid_changes(
    date: i32,
    origin: u64,
    dest: u64,
    conns: Seq<Connection>,
    schedules: Seq<TrainSchedule>,
    routes: Seq<Route>,
    t: (u64, u64, u64),
)
    requires
        conns.len() <= usize::MAX,
    ensures
        dedup(first_legs(date, origin, dest, conns, schedules, routes, outgoing(conns, origin))).contains(t)
            <==> exists|i: int, j: int|
            #![trigger conns[i], conns[j]]
            0 <= i < conns.len() && 0 <= j < conns.len() && conns[i].departure_station == origin && first_leg_ok(
                date,
                origin,
                conns[i],
                schedules,
                routes,
            ) && second_leg_ok(conns[i], conns[j], dest) && t == (
                conns[i].train_schedule_id,
                conns[j].train_schedule_id,
                conns[i].arrival_station,
            ),
{
    let list = outgoing(conns, origin);
    let fl = first_legs(date, origin, dest, conns, schedules, routes, list);
    lemma_dedup_contains(fl, t);
    lemma_first_legs_contains(date, origin, dest, conns, schedules, routes, list, t);
    if fl.contains(t) {
        let k = choose|k: int|
            0 <= k < list.len() && first_leg_ok(date, origin, #[trigger] conns[list[k] as int], schedules, routes)
                && second_legs(
                conns[list[k] as int],
                dest,
                conns,
                outgoing(conns, conns[list[k] as int].arrival_station),
            ).contains(t);
        let i = list[k];
        assert(list.contains(i));
        lemma_outgoing_contains(conns, origin, i);
        let c1 = conns[i as int];
        let list2 = outgoing(conns, c1.arrival_station);
        lemma_second_legs_contains(c1, dest, conns, list2, t);
        let k2 = choose|k2: int|
            0 <= k2 < list2.len() && second_leg_ok(c1, #[trigger] conns[list2[k2] as int], dest) && t == (
                c1.train_schedule_id,
                conns[list2[k2] as int].train_schedule_id,
                c1.arrival_station,
            );
        let j = list2[k2];
        assert(list2.contains(j));
        lemma_outgoing_contains(conns, c1.arrival_station, j);
        assert(0 <= j < conns.len() && second_leg_ok(conns[i as int], conns[j as int], dest));
    }
    if exists|i: int, j: int|
        #![trigger conns[i], conns[j]]
        0 <= i < conns.len() && 0 <= j < conns.len() && conns[i].departure_station == origin && first_leg_ok(
            date,
            origin,
            conns[i],
            schedules,
            routes,
        ) && second_leg_ok(conns[i], conns[j], dest) && t == (
            conns[i].train_schedule_id,
            conns[j].train_schedule_id,
            conns[i].arrival_station,
        ) {
        let (i, j) = choose|i: int, j: int|
            #![trigger conns[i], conns[j]]
            0 <= i < conns.len() && 0 <= j < conns.len() && conns[i].departure_station == origin && first_leg_ok(
                date,
                origin,
                conns[i],
                schedules,
                routes,
            ) && second_leg_ok(conns[i], conns[j], dest) && t == (
                conns[i].train_schedule_id,
                conns[j].train_schedule_id,
                conns[i].arrival_station,
            );
        lemma_outgoing_contains(conns, origin, i as usize);
        let k = choose|k: int| 0 <= k < list.len() && list[k] == i as usize;
        let c1 = conns[i];
        let list2 = outgoing(conns, c1.arrival_station);
        lemma_outgoing_contains(conns, c1.arrival_station, j as usize);
        let k2 = choose|k2: int| 0 <= k2 < list2.len() && list2[k2] == j as usize;
        lemma_second_legs_contains(c1, dest, conns, list2, t);
        assert(second_leg_ok(c1, conns[list2[k2] as int], dest));
        assert(second_legs(c1, dest, conns, list2).contains(t));
        assert(first_leg_ok(date, origin, conns[list[k] as int], schedules, routes));
    }
}

/// A journey with one change, as listed, is valid for the pairs asked for
/// on `date`: it goes between the stations of one of the pairs and is made
/// of two legs `c[i]`, `c[j]` of different schedules; the first leaves the
/// origin on `date` (the day of its schedule plus the whole days of its
/// departure time), the second leaves the station where the first arrives
/// at least 10 minutes (600 s) and at most 3 hours (10800 s) after that
/// arrival, and arrives at the destination; the change station listed is
/// that station.
pub open spec fn valid_listed_transfer(
    x: (Seq<u64>, u64, u64, Option<u64>),
    date: i32,
    pairs: Seq<(u64, u64)>,
    c: Seq<Connection>,
    schedules: Seq<TrainSchedule>,
    routes: Seq<Route>,
) -> bool {
    exists|p: int, i: int, j: int|
        #![trigger pairs[p], c[i], c[j]]
        0 <= p < pairs.len() && 0 <= i < c.len() && 0 <= j < c.len() && x == (
            seq![c[i].train_schedule_id, c[j].train_schedule_id],
            pairs[p].0,
            pairs[p].1,
            Some(c[i].arrival_station),
        ) && c[i].departure_station == pairs[p].0 && c[j].departure_station == c[i].arrival_station
            && c[j].arrival_station == pairs[p].1 && c[i].train_schedule_id != c[j].train_schedule_id
            && c[i].arrival_time + 600 <= c[j].departure_time && c[j].departure_time <= c[i].arrival_time + 10800
            && match schedule_stop(schedules, routes, c[i].train_schedule_id, pairs[p].0) {
            Some(q) => q.0.date + (offset(q.0) + q.1.departure_time) / 86400 == date,
            None => false,
        }
}

/// Every valid change between the stations of a pair asked for is among
/// the journeys `listed`: two legs `c[i]`, `c[j]` of different schedules,
/// the first leaving the origin on `date`, the second leaving the station
/// where the first arrives 10 minutes (600 s) to 3 hours (10800 s) after
/// that arrival and arriving at the destination.
pub open spec fn lists_every_valid_transfer(
    listed: Seq<(Seq<u64>, u64, u64, Option<u64>)>,
    date: i32,
    pairs: Seq<(u64, u64)>,
    c: Seq<Connection>,
    schedules: Seq<TrainSchedule>,
    routes: Seq<Route>,
) -> bool {
    forall|p: int, i: int, j: int|
        #![trigger pairs[p], c[i], c[j]]
        0 <= p < pairs.len() && 0 <= i < c.len() && 0 <= j < c.len() && c[i].departure_station == pairs[p].0
            && c[j].departure_station == c[i].arrival_station && c[j].arrival_station == pairs[p].1
            && c[i].train_schedule_id != c[j].train_schedule_id && c[i].arrival_time + 600 <= c[j].departure_time
            && c[j].departure_time <= c[i].arrival_time + 10800 && match schedule_stop(
            schedules,
            routes,
            c[i].train_schedule_id,
            pairs[p].0,
        ) {
            Some(q) => q.0.date + (offset(q.0) + q.1.departure_time) / 86400 == date,
            None => false,
        } ==> listed.contains(
            (seq![c[i].train_schedule_id, c[j].train_schedule_id], pairs[p].0, pairs[p].1, Some(c[i].arrival_station)),
        )
}

proof fn lemma_transfer_journeys_contains(
    date: i32,
    pairs: Seq<(u64, u64)>,
    conns: Seq<Connection>,
    schedules: Seq<TrainSchedule>,
    routes: Seq<Route>,
    x: (Seq<u64>, u64, u64, Option<u64>),
) -> (w: (int, (u64, u64, u64)))
    requires
        transfer_journeys(date, pairs, conns, schedules, routes).contains(x),
    ensures
        0 <= w.0 < pairs.len(),
        dedup(first_legs(date, pairs[w.0].0, pairs[w.0].1, conns, schedules, routes, outgoing(conns, pairs[w.0].0)))
            .contains(w.1),
        x == journey_of(pairs[w.0].0, pairs[w.0].1, w.1),
    decreases pairs.len(),
{
    let o = pairs.last().0;
    let d = pairs.last().1;
    let found = dedup(first_legs(date, o, d, conns, schedules, routes, outgoing(conns, o)));
    let prev = transfer_journeys(date, pairs.drop_last(), conns, schedules, routes);
    let mapped = found.map_values(|t: (u64, u64, u64)| journey_of(o, d, t));
    let all = transfer_journeys(date, pairs, conns, schedules, routes);
    assert(all == prev + mapped);
    let m = choose|m: int| 0 <= m < all.len() && all[m] == x;
    if m < prev.len() {
        assert(prev[m] == x);
        let w = lemma_transfer_journeys_contains(date, pairs.drop_last(), conns, schedules, routes, x);
        assert(pairs.drop_last()[w.0] == pairs[w.0]);
        w
    } else {
        let t = found[m - prev.len()];
        assert(mapped[m - prev.len()] == x);
        assert(found.contains(t));
        (pairs.len() - 1, t)
    }
}

/// Every journey with one change that the search lists goes between the
/// stations of one of the pairs asked for, and is made of two legs of
/// different schedules: the first leaves the origin on `date`, the second
/// leaves the station where the first arrives at least 10 minutes (600 s)
/// and at most 3 hours (10800 s) after that arrival, and arrives at the
/// destination; the change station listed is that station.
pub proof fn law_listed_transfers_keep_the_change_window(
    date: i32,
    pairs: Seq<(u64, u64)>,
    conns: Seq<Connection>,
    schedules: Seq<TrainSchedule>,
    routes: Seq<Route>,
    x: (Seq<u64>, u64, u64, Option<u64>),
)
    requires
        conns.len() <= usize::MAX,
        transfer_journeys(date, pairs, conns, schedules, routes).contains(x),
    ensures
        valid_listed_transfer(x, date, pairs, conns, schedules, routes),
{
    let w = lemma_transfer_journeys_contains(date, pairs, conns, schedules, routes, x);
    let p = w.0;
    let t = w.1;
    law_transfers_are_exactly_the_valid_changes(date, pairs[p].0, pairs[p].1, conns, schedules, routes, t);
    let (i, j) = choose|i: int, j: int|
        #![trigger conns[i], conns[j]]
        0 <= i < conns.len() && 0 <= j < conns.len() && conns[i].departure_station == pairs[p].0 && first_leg_ok(
            date,
            pairs[p].0,
            conns[i],
            schedules,
            routes,
        ) && second_leg_ok(conns[i], conns[j], pairs[p].1) && t == (
            conns[i].train_schedule_id,
            conns[j].train_schedule_id,
            conns[i].arrival_station,
        );
    assert(x == (
        seq![conns[i].train_schedule_id, conns[j].train_schedule_id],
        pairs[p].0,
        pairs[p].1,
        Some(conns[i].arrival_station),
    ));
}

proof fn lemma_transfer_journeys_has(
    date: i32,
    pairs: Seq<(u64, u64)>,
    conns: Seq<Connection>,
    schedules: Seq<TrainSchedule>,
    routes: Seq<Route>,
    p: int,
    t: (u64, u64, u64),
)
    requires
        0 <= p < pairs.len(),
        dedup(first_legs(date, pairs[p].0, pairs[p].1, conns, schedules, routes, outgoing(conns, pairs[p].0))).contains(
            t,
        ),
    ensures
        transfer_journeys(date, pairs, conns, schedules, routes).contains(journey_of(pairs[p].0, pairs[p].1, t)),
    decreases pairs.len(),
{
    let o = pairs.last().0;
    let d = pairs.last().1;
    let found = dedup(first_legs(date, o, d, conns, schedules, routes, outgoing(conns, o)));
    let prev = transfer_journeys(date, pairs.drop_last(), conns, schedules, routes);
    let mapped = found.map_values(|e: (u64, u64, u64)| journey_of(o, d, e));
    let all = transfer_journeys(date, pairs, conns, schedules, routes);
    assert(all == prev + mapped);
    if p < pairs.len() - 1 {
        assert(pairs.drop_last()[p] == pairs[p]);
        lemma_transfer_journeys_has(date, pairs.drop_last(), conns, schedules, routes, p, t);
        let m = choose|m: int| 0 <= m < prev.len() && prev[m] == journey_of(pairs[p].0, pairs[p].1, t);
        assert(all[m] == prev[m]);
    } else {
        let m = choose|m: int| 0 <= m < found.len() && found[m] == t;
        assert(all[prev.len() + m] == mapped[m]);
    }
}

/// Every valid change is listed: for each pair asked for, any two legs of
/// different schedules, the first leaving the origin on `date` and the
/// second leaving the station where the first arrives 10 minutes to 3 hours
/// after that arrival and arriving at the destination, give a listed
/// journey.
pub proof fn law_valid_transfers_are_listed(
    date: i32,
    pairs: Seq<(u64, u64)>,
    conns: Seq<Connection>,
    schedules: Seq<TrainSchedule>,
    routes: Seq<Route>,
    p: int,
    i: int,
    j: int,
)
    requires
        conns.len() <= usize::MAX,
        0 <= p < pairs.len(),
        0 <= i < conns.len(),
        0 <= j < conns.len(),
        conns[i].departure_station == pairs[p].0,
        conns[j].departure_station == conns[i].arrival_station,
        conns[j].arrival_station == pairs[p].1,
        conns[i].train_schedule_id != conns[j].train_schedule_id,
        conns[i].arrival_time + 600 <= conns[j].departure_time,
        conns[j].departure_time <= conns[i].arrival_time + 10800,
        match schedule_stop(schedules, routes, conns[i].train_schedule_id, pairs[p].0) {
            Some(q) => q.0.date + (offset(q.0) + q.1.departure_time) / 86400 == date,
            None => false,
        },
    ensures
        transfer_journeys(date, pairs, conns, schedules, routes).contains(
            (
                seq![conns[i].train_schedule_id, conns[j].train_schedule_id],
                pairs[p].0,
                pairs[p].1,
                Some(conns[i].arrival_station),
            ),
        ),
{
    let t = (conns[i].train_schedule_id, conns[j].train_schedule_id, conns[i].arrival_station);
    law_transfers_are_exactly_the_valid_changes(date, pairs[p].0, pairs[p].1, conns, schedules, routes, t);
    assert(second_leg_ok(conns[i], conns[j], pairs[p].1));
    assert(first_leg_ok(date, pairs[p].0, conns[i], schedules, routes));
    lemma_transfer_journeys_has(date, pairs, conns, schedules, routes, p, t);
}

/// A direct trip as listed is valid for day `date`: its schedule is one of
/// those searched and its route is known; its two stations are a pair asked
/// for, called at in that order; and the train leaves the first one on
/// `date` (the day of the schedule plus the whole days of its departure
/// time there).
pub open spec fn valid_direct_trip(
    e: (TrainSchedule, u64, u64),
    date: i32,
    schedules: Seq<TrainSchedule>,
    routes: Seq<Route>,
    pairs: Seq<(u64, u64)>,
) -> bool {
    let ri = route_index(routes, e.0.route_id);
    &&& schedules.contains(e.0)
    &&& pairs.contains((e.1, e.2))
    &&& 0 <= ri
    &&& {
        let stops = routes[ri].stops@;
        let i = stop_pos(stops, e.1);
        let j = stop_pos(stops, e.2);
        &&& 0 <= i < j < stops.len()
        &&& stops[i].station_id == e.1
        &&& stops[j].station_id == e.2
        &&& e.0.date + (offset(e.0) + stops[i].departure_time) / 86400 == date
    }
}

/// Every schedule searched that leaves the first station of a pair asked
/// for on day `date` and calls at its second station later is listed.
pub open spec fn lists_every_direct_trip(
    listed: Seq<(TrainSchedule, u64, u64)>,
    date: i32,
    schedules: Seq<TrainSchedule>,
    routes: Seq<Route>,
    pairs: Seq<(u64, u64)>,
) -> bool {
    forall|k: int, q: int|
        #![trigger schedules[k], pairs[q]]
        0 <= k < schedules.len() && 0 <= q < pairs.len() && 0 <= route_index(routes, schedules[k].route_id) && {
            let stops = routes[route_index(routes, schedules[k].route_id)].stops@;
            let i = stop_pos(stops, pairs[q].0);
            let j = stop_pos(stops, pairs[q].1);
            &&& 0 <= i < j
            &&& schedules[k].date + (offset(schedules[k]) + stops[i].departure_time) / 86400 == date
        } ==> exists|m: int| 0 <= m < listed.len() && (#[trigger] listed[m]).0 == schedules[k]
}

proof fn lemma_first_served(date: i32, s: TrainSchedule, stops: Seq<Stop>, pairs: Seq<(u64, u64)>)
    ensures
        match first_served(date, s, stops, pairs) {
            Some(x) => pairs.contains(x) && serves(date, s, stops, x),
            None => forall|q: int| 0 <= q < pairs.len() ==> !serves(date, s, stops, #[trigger] pairs[q]),
        },
    decreases pairs.len(),
{
    if pairs.len() > 0 {
        lemma_first_served(date, s, stops, pairs.drop_last());
        match first_served(date, s, stops, pairs.drop_last()) {
            Some(x) => {
                let q = choose|q: int| 0 <= q < pairs.drop_last().len() && pairs.drop_last()[q] == x;
                assert(pairs[q] == x);
            },
            None => {
                assert(pairs[pairs.len() - 1] == pairs.last());
                assert forall|q: int| 0 <= q < pairs.len() - 1 implies !serves(date, s, stops, #[trigger] pairs[q]) by {
                    assert(pairs.drop_last()[q] == pairs[q]);
                }
            },
        }
    }
}

proof fn lemma_direct_found_contains(
    date: i32,
    schedules: Seq<TrainSchedule>,
    routes: Seq<Route>,
    pairs: Seq<(u64, u64)>,
    e: (TrainSchedule, u64, u64),
)
    requires
        direct_found(date, schedules, routes, pairs).contains(e),
    ensures
        schedules.contains(e.0),
        route_index(routes, e.0.route_id) >= 0,
        first_served(date, e.0, routes[route_index(routes, e.0.route_id)].stops@, pairs) == Some((e.1, e.2)),
    decreases schedules.len(),
{
    let prev = direct_found(date, schedules.drop_last(), routes, pairs);
    let all = direct_found(date, schedules, routes, pairs);
    let m = choose|m: int| 0 <= m < all.len() && all[m] == e;
    if m < prev.len() {
        assert(prev[m] == e);
        lemma_direct_found_contains(date, schedules.drop_last(), routes, pairs, e);
        let k = choose|k: int| 0 <= k < schedules.drop_last().len() && schedules.drop_last()[k] == e.0;
        assert(schedules[k] == e.0);
    } else {
        assert(schedules[schedules.len() - 1] == e.0);
    }
}

proof fn lemma_direct_found_has(
    date: i32,
    schedules: Seq<TrainSchedule>,
    routes: Seq<Route>,
    pairs: Seq<(u64, u64)>,
    k: int,
)
    requires
        0 <= k < schedules.len(),
        route_index(routes, schedules[k].route_id) >= 0,
        first_served(date, schedules[k], routes[route_index(routes, schedules[k].route_id)].stops@, pairs) is Some,
    ensures
        exists|m: int|
            0 <= m < direct_found(date, schedules, routes, pairs).len() && (#[trigger] direct_found(
                date,
                schedules,
                routes,
                pairs,
            )[m]).0 == schedules[k],
    decreases schedules.len(),
{
    let prev = direct_found(date, schedules.drop_last(), routes, pairs);
    let all = direct_found(date, schedules, routes, pairs);
    if k < schedules.len() - 1 {
        assert(schedules.drop_last()[k] == schedules[k]);
        lemma_direct_found_has(date, schedules.drop_last(), routes, pairs, k);
        let m = choose|m: int| 0 <= m < prev.len() && (#[trigger] prev[m]).0 == schedules[k];
        assert(all[m] == prev[m]);
    } else {
        assert(all[prev.len() as int].0 == schedules[k]);
    }
}

proof fn lemma_by_origin_departure_same(v: Seq<(TrainSchedule, u64, u64)>, e: (TrainSchedule, u64, u64))
    ensures
        by_origin_departure(v).contains(e) <==> v.contains(e),
{
    let keyed = v.map_values(|x: (TrainSchedule, u64, u64)| (departure_key(x.0.origin_departure_time), x));
    let sorted = sorted_by_key(keyed);
    let out = by_origin_departure(v);
    lemma_sorted_by_key(keyed);
    let key = (departure_key(e.0.origin_departure_time), e);
    vstd::seq_lib::to_multiset_contains(keyed, key);
    vstd::seq_lib::to_multiset_contains(sorted, key);
    if out.contains(e) {
        let m = choose|m: int| 0 <= m < out.len() && out[m] == e;
        let p = sorted[m];
        vstd::seq_lib::to_multiset_contains(keyed, p);
        vstd::seq_lib::to_multiset_contains(sorted, p);
        assert(sorted.contains(p));
        let j = choose|j: int| 0 <= j < keyed.len() && keyed[j] == p;
        assert(v[j] == e);
    }
    if v.contains(e) {
        let j = choose|j: int| 0 <= j < v.len() && v[j] == e;
        assert(keyed[j] == key);
        assert(keyed.contains(key));
        let m = choose|m: int| 0 <= m < sorted.len() && sorted[m] == key;
        assert(out[m] == e);
    }
}

/// Every direct trip that the search lists is valid for the day asked for:
/// in particular its train leaves the trip's first station on that day, not
/// on the day before.
pub proof fn law_listed_direct_trips_leave_on_the_date(
    date: i32,
    schedules: Seq<TrainSchedule>,
    routes: Seq<Route>,
    pairs: Seq<(u64, u64)>,
    e: (TrainSchedule, u64, u64),
)
    requires
        by_origin_departure(direct_found(date, schedules, routes, pairs)).contains(e),
    ensures
        valid_direct_trip(e, date, schedules, routes, pairs),
{
    lemma_by_origin_departure_same(direct_found(date, schedules, routes, pairs), e);
    lemma_direct_found_contains(date, schedules, routes, pairs, e);
    let stops = routes[route_index(routes, e.0.route_id)].stops@;
    lemma_first_served(date, e.0, stops, pairs);
    lemma_stop_pos(stops, e.1);
    lemma_stop_pos(stops, e.2);
}

/// Every schedule searched that leaves a pair's first station on the day
/// asked for and calls at its second station later is listed.
pub proof fn law_direct_trips_are_all_listed(
    date: i32,
    schedules: Seq<TrainSchedule>,
    routes: Seq<Route>,
    pairs: Seq<(u64, u64)>,
)
    ensures
        lists_every_direct_trip(by_origin_departure(direct_found(date, schedules, routes, pairs)), date, schedules, routes, pairs),
{
    let found = direct_found(date, schedules, routes, pairs);
    let listed = by_origin_departure(found);
    assert forall|k: int, q: int|
        #![trigger schedules[k], pairs[q]]
        0 <= k < schedules.len() && 0 <= q < pairs.len() && 0 <= route_index(routes, schedules[k].route_id) && {
            let stops = routes[route_index(routes, schedules[k].route_id)].stops@;
            let i = stop_pos(stops, pairs[q].0);
            let j = stop_pos(stops, pairs[q].1);
            &&& 0 <= i < j
            &&& schedules[k].date + (offset(schedules[k]) + stops[i].departure_time) / 86400 == date
        } implies exists|m: int| 0 <= m < listed.len() && (#[trigger] listed[m]).0 == schedules[k] by {
        let stops = routes[route_index(routes, schedules[k].route_id)].stops@;
        lemma_first_served(date, schedules[k], stops, pairs);
        assert(serves(date, schedules[k], stops, pairs[q]));
        lemma_direct_found_has(date, schedules, routes, pairs, k);
        let m = choose|m: int| 0 <= m < found.len() && (#[trigger] found[m]).0 == schedules[k];
        assert(found.contains(found[m]));
        lemma_by_origin_departure_same(found, found[m]);
        let n = choose|n: int| 0 <= n < listed.len() && listed[n] == found[m];
        assert(listed[n].0 == schedules[k]);
    }
}

/// The direct trips come out in order of their trains' origin departure
/// times, earliest first.
pub proof fn law_direct_trips_by_departure_time(v: Seq<(TrainSchedule, u64, u64)>)
    ensures
        forall|a: int, b: int|
            0 <= a <= b < by_origin_departure(v).len() ==> (#[trigger] by_origin_departure(v)[a]).0.origin_departure_time
                <= (#[trigger] by_origin_departure(v)[b]).0.origin_departure_time,
{
    let keyed = v.map_values(|x: (TrainSchedule, u64, u64)| (departure_key(x.0.origin_departure_time), x));
    let sorted = sorted_by_key(keyed);
    let out = by_origin_departure(v);
    lemma_sorted_by_key(keyed);
    assert forall|k: int| 0 <= k < sorted.len() implies #[trigger] sorted[k].0 == departure_key(
        sorted[k].1.0.origin_departure_time,
    ) by {
        vstd::seq_lib::to_multiset_contains(sorted, sorted[k]);
        vstd::seq_lib::to_multiset_contains(keyed, sorted[k]);
        assert(sorted.contains(sorted[k]));
        let j = choose|j: int| 0 <= j < keyed.len() && keyed[j] == sorted[k];
        assert(keyed[j] == (departure_key(v[j].0.origin_departure_time), v[j]));
    }
    assert forall|a: int, b: int| 0 <= a <= b < out.len() implies (#[trigger] out[a]).0.origin_departure_time
        <= (#[trigger] out[b]).0.origin_departure_time by {
        assert(sorted[a].0 <= sorted[b].0);
        assert(out[a] == sorted[a].1);
        assert(out[b] == sorted[b].1);
        let x = out[a].0.origin_departure_time;
        let y = out[b].0.origin_departure_time;
        assert(departure_key(x) == (x + 0x8000_0000) as u32);
        assert(departure_key(x) == x + 0x8000_0000);
        assert(departure_key(y) == y + 0x8000_0000);
    }
}

} // verus!
