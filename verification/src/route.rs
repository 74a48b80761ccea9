//! Routes: the ordered stops that a train calls at.
use vstd::prelude::*;

verus! {

/// One call of a route at a station; times are seconds after the origin departure.
#[derive(Debug, Clone, Copy, PartialEq, Eq)]
pub struct Stop {
    pub id: Option<u64>,
    pub station_id: u64,
    pub arrival_time: u32,
    pub departure_time: u32,
    pub order: u32,
}

/// A route: its stops, in the order the train calls at them.
#[derive(Debug, Clone)]
pub struct Route {
    pub id: Option<u64>,
    pub stops: Vec<Stop>,
}

/// The value under which a station id is stored in the database.
pub open spec fn station_db_id(id: u64) -> i32 {
    id as i32
}

/// Database value of a station id.
pub fn to_db_value(id: u64) -> (r: i32)
    ensures
        r == station_db_id(id),
{
    id as i32
}

/// The route map: the stations, and for each ordered pair of stations that
/// some route links, the routes that do, in the order they were added.
#[derive(Debug, Clone)]
pub struct RouteGraph {
    pub stations: Vec<u64>,
    pub edges: Vec<((u64, u64), Vec<u64>)>,
}

/// The edges as plain sequences.
pub open spec fn edges_view(edges: Seq<((u64, u64), Vec<u64>)>) -> Seq<((u64, u64), Seq<u64>)> {
    edges.map_values(|e: ((u64, u64), Vec<u64>)| (e.0, e.1@))
}

/// The position of the edge `k`, or -1.
pub open spec fn edge_pos(edges: Seq<((u64, u64), Seq<u64>)>, k: (u64, u64)) -> int
    decreases edges.len(),
{
    if edges.len() == 0 {
        -1
    } else {
        let p = edge_pos(edges.drop_last(), k);
        if p >= 0 {
            p
        } else if edges.last().0 == k {
            edges.len() - 1
        } else {
            -1
        }
    }
}

/// The edges once route `id` is recorded on the edge `k`: appended to the
/// edge's routes, or a new edge at the end.
pub open spec fn add_edge(edges: Seq<((u64, u64), Seq<u64>)>, k: (u64, u64), id: u64) -> Seq<
    ((u64, u64), Seq<u64>),
> {
    let p = edge_pos(edges, k);
    if p >= 0 {
        edges.update(p, (k, edges[p].1.push(id)))
    } else {
        edges.push((k, seq![id]))
    }
}

/// The edges once route `id` is recorded on each of its station pairs, in order.
pub open spec fn add_pairs(edges: Seq<((u64, u64), Seq<u64>)>, id: u64, pairs: Seq<(u64, u64)>) -> Seq<
    ((u64, u64), Seq<u64>),
>
    decreases pairs.len(),
{
    if pairs.len() == 0 {
        edges
    } else {
        add_edge(add_pairs(edges, id, pairs.drop_last()), pairs.last(), id)
    }
}

/// The edges of the routes, each given by its id and its station pairs.
pub open spec fn route_edges(routes: Seq<(u64, Vec<(u64, u64)>)>) -> Seq<((u64, u64), Seq<u64>)>
    decreases routes.len(),
{
    if routes.len() == 0 {
        Seq::empty()
    } else {
        add_pairs(route_edges(routes.drop_last()), routes.last().0, routes.last().1@)
    }
}

proof fn lemma_edge_pos(edges: Seq<((u64, u64), Seq<u64>)>, k: (u64, u64))
    ensures
        -1 <= edge_pos(edges, k) < edges.len(),
        edge_pos(edges, k) >= 0 ==> edges[edge_pos(edges, k)].0 == k,
        edge_pos(edges, k) >= 0 ==> forall|i: int| 0 <= i < edge_pos(edges, k) ==> edges[i].0 != k,
        edge_pos(edges, k) == -1 ==> forall|i: int| 0 <= i < edges.len() ==> edges[i].0 != k,
    decreases edges.len(),
{
    if edges.len() > 0 {
        lemma_edge_pos(edges.drop_last(), k);
        assert forall|i: int| 0 <= i < edges.len() - 1 implies edges.drop_last()[i] == edges[i] by {}
    }
}

fn record_edge(edges: &mut Vec<((u64, u64), Vec<u64>)>, k: (u64, u64), id: u64)
    ensures
        edges_view(final(edges)@) == add_edge(edges_view(old(edges)@), k, id),
{
    let ghost v0 = edges_view(edges@);
    proof {
        lemma_edge_pos(v0, k);
    }
    let mut i: usize = 0;
    while i < edges.len()
        invariant
            i <= edges@.len(),
            v0 == edges_view(edges@),
            v0 == edges_view(old(edges)@),
            forall|t: int| 0 <= t < i ==> edges@[t].0 != k,
        decreases edges@.len() - i,
    {
        if edges[i].0 .0 == k.0 && edges[i].0 .1 == k.1 {
            proof {
                lemma_edge_pos(v0, k);
                let p = edge_pos(v0, k);
                assert(v0[i as int].0 == k);
                if 0 <= p < i {
                    assert(v0[p].0 == edges@[p].0);
                }
                assert(p == i);
            }
            let mut e = edges.remove(i);
            e.1.push(id);
            edges.insert(i, e);
            proof {
                assert(edges_view(edges@) =~= add_edge(v0, k, id));
            }
            return;
        }
        i += 1;
    }
    proof {
        let p = edge_pos(v0, k);
        if p >= 0 {
            assert(v0[p].0 == edges@[p].0);
        }
    }
    let mut v: Vec<u64> = Vec::new();
    v.push(id);
    edges.push((k, v));
    proof {
        assert(edges_view(edges@) =~= add_edge(v0, k, id));
    }
}

/// The route map of the stations and the routes, each route given by its id
/// and the station pairs it links. Every station of a pair must be one of
/// the stations.
pub fn route_map(stations: Vec<u64>, routes: &Vec<(u64, Vec<(u64, u64)>)>) -> (g: RouteGraph)
    requires
        forall|i: int, j: int|
            0 <= i < routes@.len() && 0 <= j < routes@[i].1@.len() ==> stations@.contains(
                (#[trigger] routes@[i].1@[j]).0,
            ) && stations@.contains(routes@[i].1@[j].1),
    ensures
        g.stations@ == stations@,
        edges_view(g.edges@) == route_edges(routes@),
{
    let mut edges: Vec<((u64, u64), Vec<u64>)> = Vec::new();
    let mut i: usize = 0;
    proof {
        assert(edges_view(edges@) =~= Seq::<((u64, u64), Seq<u64>)>::empty());
    }
    while i < routes.len()
        invariant
            i <= routes@.len(),
            edges_view(edges@) == route_edges(routes@.take(i as int)),
        decreases routes@.len() - i,
    {
        let id = routes[i].0;
        let pairs = &routes[i].1;
        let ghost before = edges_view(edges@);
        let mut j: usize = 0;
        while j < pairs.len()
            invariant
                j <= pairs@.len(),
                edges_view(edges@) == add_pairs(before, id, pairs@.take(j as int)),
            decreases pairs@.len() - j,
        {
            proof {
                assert(pairs@.take(j + 1).drop_last() =~= pairs@.take(j as int));
                assert(pairs@.take(j + 1).last() == pairs@[j as int]);
            }
            record_edge(&mut edges, pairs[j], id);
            j += 1;
        }
        proof {
            assert(pairs@.take(j as int) =~= pairs@);
            assert(routes@.take(i + 1).drop_last() =~= routes@.take(i as int));
            assert(routes@.take(i + 1).last() == routes@[i as int]);
        }
        i += 1;
    }
    proof {
        assert(routes@.take(i as int) =~= routes@);
    }
    RouteGraph { stations, edges }
}

} // verus!
