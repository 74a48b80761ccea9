//! Seat availability along a train's route.
//!
//! A seat is occupied on a leg `[begin, end)` of stop orders. For each seat
//! that is occupied somewhere, its free stretches are the maximal runs of
//! stops where it is not occupied; the availability map counts, for every
//! stretch `(first, last)`, how many seats have exactly that stretch free.
use std::collections::HashMap;
use std::sync::Arc;
use vstd::prelude::*;

use crate::route::{station_db_id, to_db_value, Route, Stop};

verus! {

broadcast use vstd::std_specs::hash::group_hash_axioms;

/// The seats of one seat type that are occupied between two stations.
pub struct OccupiedSegment {
    pub begin_station_id: i32,
    pub end_station_id: i32,
    pub seat_ids: Vec<i64>,
}

/// Occupied seats of one seat type of a train schedule.
pub struct SeatTypeOccupancy {
    pub seat_type_id: i32,
    pub segments: Vec<OccupiedSegment>,
}

/// Station (database id) to stop order; a later stop of the same station wins.
pub open spec fn stop_order_map(stops: Seq<Stop>) -> Map<i32, u32>
    decreases stops.len(),
{
    if stops.len() == 0 {
        Map::empty()
    } else {
        stop_order_map(stops.drop_last()).insert(
            station_db_id(stops.last().station_id),
            stops.last().order,
        )
    }
}

/// Map from the database id of each station on the route to its stop order.
pub fn calc_station_id_to_order_map(route: &Route) -> (m: HashMap<i32, u32>)
    ensures
        m@ == stop_order_map(route.stops@),
{
    let mut m: HashMap<i32, u32> = HashMap::new();
    let mut i: usize = 0;
    while i < route.stops.len()
        invariant
            i <= route.stops@.len(),
            m@ == stop_order_map(route.stops@.take(i as int)),
        decreases route.stops@.len() - i,
    {
        let stop = route.stops[i];
        m.insert(to_db_value(stop.station_id), stop.order);
        assert(route.stops@.take(i + 1).drop_last() =~= route.stops@.take(i as int));
        i += 1;
    }
    assert(route.stops@.take(i as int) =~= route.stops@);
    m
}

/// The segments recorded for a seat type: those of its first entry.
pub open spec fn segments_of(info: Seq<SeatTypeOccupancy>, seat_type_id: i32) -> Seq<OccupiedSegment> {
    info[first_index_of(info, seat_type_id)].segments@
}

/// Index of the first entry for a seat type.
pub open spec fn first_index_of(info: Seq<SeatTypeOccupancy>, seat_type_id: i32) -> int {
    choose|i: int|
        0 <= i < info.len() && info[i].seat_type_id == seat_type_id && (forall|j: int|
            0 <= j < i ==> info[j].seat_type_id != seat_type_id)
}

/// Whether a segment keeps its seats occupied at stop order `k`.
pub open spec fn covers(seg: OccupiedSegment, ord: Map<i32, u32>, k: int) -> bool {
    ord[seg.begin_station_id] <= k < ord[seg.end_station_id]
}

/// Whether seat `s` is occupied at stop order `k`.
pub open spec fn occupied_at(segs: Seq<OccupiedSegment>, ord: Map<i32, u32>, s: i64, k: int) -> bool {
    exists|g: int| 0 <= g < segs.len() && #[trigger] segs[g].seat_ids@.contains(s) && covers(segs[g], ord, k)
}

/// Occupation of seat `s` at each of the `n` stops.
pub open spec fn seat_bitmap(segs: Seq<OccupiedSegment>, ord: Map<i32, u32>, n: nat, s: i64) -> Seq<bool> {
    Seq::new(n, |k: int| occupied_at(segs, ord, s, k))
}

/// All seat ids named by the segments, in order, with repetitions.
pub open spec fn all_seat_ids(segs: Seq<OccupiedSegment>) -> Seq<i64>
    decreases segs.len(),
{
    if segs.len() == 0 {
        Seq::empty()
    } else {
        all_seat_ids(segs.drop_last()) + segs.last().seat_ids@
    }
}

/// `[b, e]` is a maximal run of free stops of `bm`.
pub open spec fn is_free_run(bm: Seq<bool>, b: int, e: int) -> bool {
    &&& 0 <= b <= e < bm.len()
    &&& forall|k: int| b <= k <= e ==> !#[trigger] bm[k]
    &&& (b == 0 || bm[b - 1])
    &&& (e == bm.len() - 1 || bm[e + 1])
}

/// Number of occupied-somewhere seats whose free stretch `[b, e]` is maximal.
pub open spec fn free_run_count(segs: Seq<OccupiedSegment>, ord: Map<i32, u32>, n: nat, b: int, e: int) -> nat {
    all_seat_ids(segs).to_set().filter(|s: i64| is_free_run(seat_bitmap(segs, ord, n, s), b, e)).len()
}

/// Requirements under which the availability map can be computed.
pub open spec fn seat_count_inputs_ok(
    info: Seq<SeatTypeOccupancy>,
    seat_type_id: i32,
    ord: Map<i32, u32>,
    n: nat,
) -> bool {
    &&& exists|i: int| 0 <= i < info.len() && info[i].seat_type_id == seat_type_id
    &&& n <= u32::MAX
    &&& all_seat_ids(segments_of(info, seat_type_id)).len() < u32::MAX
    &&& forall|g: int|
        #![trigger segments_of(info, seat_type_id)[g]]
        0 <= g < segments_of(info, seat_type_id).len() ==> {
            let seg = segments_of(info, seat_type_id)[g];
            &&& ord.contains_key(seg.begin_station_id)
            &&& ord.contains_key(seg.end_station_id)
            &&& ord[seg.begin_station_id] <= ord[seg.end_station_id] <= n
        }
}


/// Seat `s` is named by one of the first `gi` segments, or among the first
/// `mi` seats of segment `gi`.
pub open spec fn seen_upto(segs: Seq<OccupiedSegment>, gi: int, mi: int, s: i64) -> bool {
    ||| exists|g: int| 0 <= g < gi && #[trigger] segs[g].seat_ids@.contains(s)
    ||| 0 <= gi < segs.len() && segs[gi].seat_ids@.take(mi).contains(s)
}

/// Seat `s` is occupied at `k` by one of the segments seen so far.
pub open spec fn occupied_upto(
    segs: Seq<OccupiedSegment>,
    ord: Map<i32, u32>,
    gi: int,
    mi: int,
    s: i64,
    k: int,
) -> bool {
    ||| exists|g: int|
        0 <= g < gi && #[trigger] segs[g].seat_ids@.contains(s) && covers(segs[g], ord, k)
    ||| 0 <= gi < segs.len() && segs[gi].seat_ids@.take(mi).contains(s) && covers(segs[gi], ord, k)
}

proof fn lemma_all_seat_ids_contains(segs: Seq<OccupiedSegment>, s: i64)
    ensures
        all_seat_ids(segs).contains(s) <==> exists|g: int|
            0 <= g < segs.len() && #[trigger] segs[g].seat_ids@.contains(s),
    decreases segs.len(),
{
    if segs.len() > 0 {
        let init = segs.drop_last();
        lemma_all_seat_ids_contains(init, s);
        let a = all_seat_ids(init);
        let b = segs.last().seat_ids@;
        assert((a + b).contains(s) <==> a.contains(s) || b.contains(s)) by {
            if (a + b).contains(s) {
                let i = choose|i: int| 0 <= i < (a + b).len() && (a + b)[i] == s;
                if i >= a.len() {
                    assert(b[i - a.len()] == s);
                }
            }
            if b.contains(s) {
                let i = choose|i: int| 0 <= i < b.len() && b[i] == s;
                assert((a + b)[a.len() + i] == s);
            }
            if a.contains(s) {
                let i = choose|i: int| 0 <= i < a.len() && a[i] == s;
                assert((a + b)[i] == s);
            }
        }
        if exists|g: int| 0 <= g < segs.len() && #[trigger] segs[g].seat_ids@.contains(s) {
            let g = choose|g: int| 0 <= g < segs.len() && #[trigger] segs[g].seat_ids@.contains(s);
            if g < segs.len() - 1 {
                assert(init[g] == segs[g]);
            }
        }
        if exists|g: int| 0 <= g < init.len() && #[trigger] init[g].seat_ids@.contains(s) {
            let g = choose|g: int| 0 <= g < init.len() && #[trigger] init[g].seat_ids@.contains(s);
            assert(segs[g] == init[g]);
        }
    }
}

proof fn lemma_all_seat_ids_step(segs: Seq<OccupiedSegment>, gi: int)
    requires
        0 <= gi < segs.len(),
    ensures
        all_seat_ids(segs.take(gi + 1)) == all_seat_ids(segs.take(gi)) + segs[gi].seat_ids@,
{
    assert(segs.take(gi + 1).drop_last() =~= segs.take(gi));
}

fn find_key(keys: &Vec<i64>, s: i64) -> (r: Option<usize>)
    ensures
        match r {
            Some(j) => j < keys@.len() && keys@[j as int] == s,
            None => !keys@.contains(s),
        },
{
    let mut j: usize = 0;
    while j < keys.len()
        invariant
            j <= keys@.len(),
            forall|t: int| 0 <= t < j ==> keys@[t] != s,
        decreases keys@.len() - j,
    {
        if keys[j] == s {
            return Some(j);
        }
        j += 1;
    }
    None
}

fn all_free(n: usize) -> (v: Vec<bool>)
    ensures
        v@.len() == n,
        forall|k: int| 0 <= k < n ==> !#[trigger] v@[k],
{
    let mut v: Vec<bool> = Vec::new();
    let mut i: usize = 0;
    while i < n
        invariant
            i <= n,
            v@.len() == i,
            forall|k: int| 0 <= k < i ==> !#[trigger] v@[k],
        decreases n - i,
    {
        v.push(false);
        i += 1;
    }
    v
}

fn fill_occupied(bm: &mut Vec<bool>, b: usize, e: usize)
    requires
        b <= e <= old(bm)@.len(),
    ensures
        final(bm)@.len() == old(bm)@.len(),
        forall|k: int|
            0 <= k < old(bm)@.len() ==> (#[trigger] final(bm)@[k] <==> (old(bm)@[k] || (b <= k < e))),
{
    let ghost orig = bm@;
    let mut k: usize = b;
    while k < e
        invariant
            b <= k <= e,
            e <= orig.len(),
            bm@.len() == orig.len(),
            forall|t: int| 0 <= t < orig.len() ==> (#[trigger] bm@[t] <==> (orig[t] || (b <= t < k))),
        decreases e - k,
    {
        bm.set(k, true);
        k += 1;
    }
}

/// Builds the occupation bitmap of every seat named by the segments.
fn build_seat_bitmaps(segs: &Vec<OccupiedSegment>, ord: &HashMap<i32, u32>, n: usize) -> (res: (
    Vec<i64>,
    Vec<Vec<bool>>,
))
    requires
        forall|g: int|
            #![trigger segs@[g]]
            0 <= g < segs@.len() ==> {
                &&& ord@.contains_key(segs@[g].begin_station_id)
                &&& ord@.contains_key(segs@[g].end_station_id)
                &&& ord@[segs@[g].begin_station_id] <= ord@[segs@[g].end_station_id] <= n
            },
    ensures
        res.0@.len() == res.1@.len(),
        res.0@.no_duplicates(),
        res.0@.len() <= all_seat_ids(segs@).len(),
        forall|s: i64| res.0@.contains(s) <==> all_seat_ids(segs@).contains(s),
        forall|j: int|
            #![trigger res.1@[j]]
            0 <= j < res.1@.len() ==> res.1@[j]@ == seat_bitmap(segs@, ord@, n as nat, res.0@[j]),
{
    let mut keys: Vec<i64> = Vec::new();
    let mut bms: Vec<Vec<bool>> = Vec::new();
    let mut gi: usize = 0;
    while gi < segs.len()
        invariant
            gi <= segs@.len(),
            forall|g: int|
                #![trigger segs@[g]]
                0 <= g < segs@.len() ==> {
                    &&& ord@.contains_key(segs@[g].begin_station_id)
                    &&& ord@.contains_key(segs@[g].end_station_id)
                    &&& ord@[segs@[g].begin_station_id] <= ord@[segs@[g].end_station_id] <= n
                },
            keys@.len() == bms@.len(),
            keys@.no_duplicates(),
            keys@.len() <= all_seat_ids(segs@.take(gi as int)).len(),
            forall|s: i64| keys@.contains(s) <==> seen_upto(segs@, gi as int, 0, s),
            forall|j: int| #![trigger bms@[j]] 0 <= j < bms@.len() ==> bms@[j]@.len() == n,
            forall|j: int, k: int|
                0 <= j < bms@.len() && 0 <= k < n ==> (#[trigger] bms@[j]@[k] <==> occupied_upto(
                    segs@,
                    ord@,
                    gi as int,
                    0,
                    keys@[j],
                    k,
                )),
        decreases segs@.len() - gi,
    {
        let seg = &segs[gi];
        let b_ord = *ord.get(&seg.begin_station_id).unwrap();
        let e_ord = *ord.get(&seg.end_station_id).unwrap();
        proof {
            lemma_all_seat_ids_step(segs@, gi as int);
            assert(seg.seat_ids@.take(0) =~= Seq::<i64>::empty());
        }
        let mut mi: usize = 0;
        while mi < seg.seat_ids.len()
            invariant
                gi < segs@.len(),
                seg == segs@[gi as int],
                b_ord == ord@[seg.begin_station_id],
                e_ord == ord@[seg.end_station_id],
                b_ord <= e_ord <= n,
                mi <= seg.seat_ids@.len(),
                keys@.len() == bms@.len(),
                keys@.no_duplicates(),
                keys@.len() <= all_seat_ids(segs@.take(gi as int)).len() + mi,
                forall|s: i64| keys@.contains(s) <==> seen_upto(segs@, gi as int, mi as int, s),
                forall|j: int| #![trigger bms@[j]] 0 <= j < bms@.len() ==> bms@[j]@.len() == n,
                forall|j: int, k: int|
                    0 <= j < bms@.len() && 0 <= k < n ==> (#[trigger] bms@[j]@[k] <==> occupied_upto(
                        segs@,
                        ord@,
                        gi as int,
                        mi as int,
                        keys@[j],
                        k,
                    )),
            decreases seg.seat_ids@.len() - mi,
        {
            let s = seg.seat_ids[mi];
            let ghost take_next = seg.seat_ids@.take(mi + 1);
            proof {
                assert(take_next =~= seg.seat_ids@.take(mi as int).push(s));
            }
            let ghost keys0 = keys@;
            let j = match find_key(&keys, s) {
                Some(j) => j,
                None => {
                    let ghost old_keys = keys@;
                    keys.push(s);
                    bms.push(all_free(n));
                    proof {
                        assert forall|t: i64| keys@.contains(t) <==> (old_keys.contains(t) || t == s) by {
                            if keys@.contains(t) {
                                let i = choose|i: int| 0 <= i < keys@.len() && keys@[i] == t;
                                if i < old_keys.len() {
                                    assert(old_keys[i] == t);
                                }
                            }
                            if old_keys.contains(t) {
                                let i = choose|i: int| 0 <= i < old_keys.len() && old_keys[i] == t;
                                assert(keys@[i] == t);
                            }
                            assert(keys@[old_keys.len() as int] == s);
                        }
                        assert forall|k: int| 0 <= k < n implies !occupied_upto(
                            segs@,
                            ord@,
                            gi as int,
                            mi as int,
                            s,
                            k,
                        ) by {
                            if exists|g: int|
                                0 <= g < gi && #[trigger] segs@[g].seat_ids@.contains(s) {
                                let g = choose|g: int|
                                    0 <= g < gi && #[trigger] segs@[g].seat_ids@.contains(s);
                                assert(seen_upto(segs@, gi as int, mi as int, s));
                            }
                        }
                    }
                    keys.len() - 1
                },
            };
            proof {
                assert(keys@[j as int] == s);
                assert forall|t: i64| keys@.contains(t) <==> (keys0.contains(t) || t == s) by {
                    if keys0.contains(t) {
                        let i = choose|i: int| 0 <= i < keys0.len() && keys0[i] == t;
                        assert(keys@[i] == t);
                    }
                }
            }
            let ghost before = bms@;
            let mut bm: Vec<bool> = Vec::new();
            bms.set_and_swap(j, &mut bm);
            fill_occupied(&mut bm, b_ord as usize, e_ord as usize);
            bms.set_and_swap(j, &mut bm);
            proof {
                assert forall|t: i64| keys@.contains(t) <==> seen_upto(
                    segs@,
                    gi as int,
                    mi + 1,
                    t,
                ) by {
                    assert(keys0.contains(t) <==> seen_upto(segs@, gi as int, mi as int, t));
                    assert(take_next.contains(t) <==> (seg.seat_ids@.take(mi as int).contains(t)
                        || t == s)) by {
                        if take_next.contains(t) {
                            let i = choose|i: int| 0 <= i < take_next.len() && take_next[i] == t;
                            if i < mi {
                                assert(seg.seat_ids@.take(mi as int)[i] == t);
                            }
                        }
                        if seg.seat_ids@.take(mi as int).contains(t) {
                            let i = choose|i: int|
                                0 <= i < mi && seg.seat_ids@.take(mi as int)[i] == t;
                            assert(take_next[i] == t);
                        }
                        assert(take_next[mi as int] == s);
                    }
                }
                assert forall|jj: int, k: int|
                    0 <= jj < bms@.len() && 0 <= k < n implies (#[trigger] bms@[jj]@[k]
                    <==> occupied_upto(segs@, ord@, gi as int, mi + 1, keys@[jj], k)) by {
                    let t = keys@[jj];
                    assert(take_next.contains(t) <==> (seg.seat_ids@.take(mi as int).contains(t)
                        || t == s)) by {
                        if take_next.contains(t) {
                            let i = choose|i: int| 0 <= i < take_next.len() && take_next[i] == t;
                            if i < mi {
                                assert(seg.seat_ids@.take(mi as int)[i] == t);
                            }
                        }
                        if seg.seat_ids@.take(mi as int).contains(t) {
                            let i = choose|i: int|
                                0 <= i < mi && seg.seat_ids@.take(mi as int)[i] == t;
                            assert(take_next[i] == t);
                        }
                        assert(take_next[mi as int] == s);
                    }
                    if jj != j {
                        assert(bms@[jj] == before[jj]);
                        assert(t != s);
                    }
                }
            }
            mi += 1;
        }
        proof {
            assert(seg.seat_ids@.take(seg.seat_ids@.len() as int) =~= seg.seat_ids@);
            assert forall|t: i64| keys@.contains(t) <==> seen_upto(segs@, gi + 1, 0, t) by {
                if seen_upto(segs@, gi + 1, 0, t) {
                    let g = choose|g: int| 0 <= g < gi + 1 && #[trigger] segs@[g].seat_ids@.contains(t);
                    if g < gi {
                        assert(seen_upto(segs@, gi as int, mi as int, t));
                    }
                }
                if keys@.contains(t) {
                    if seg.seat_ids@.take(mi as int).contains(t) {
                        assert(segs@[gi as int].seat_ids@.contains(t));
                    }
                }
            }
            assert forall|jj: int, k: int|
                0 <= jj < bms@.len() && 0 <= k < n implies (#[trigger] bms@[jj]@[k]
                <==> occupied_upto(segs@, ord@, gi + 1, 0, keys@[jj], k)) by {
                let t = keys@[jj];
                if occupied_upto(segs@, ord@, gi + 1, 0, t, k) {
                    let g = choose|g: int|
                        0 <= g < gi + 1 && #[trigger] segs@[g].seat_ids@.contains(t) && covers(
                            segs@[g],
                            ord@,
                            k,
                        );
                    if g < gi {
                        assert(occupied_upto(segs@, ord@, gi as int, mi as int, t, k));
                    }
                }
                if seg.seat_ids@.take(mi as int).contains(t) && covers(*seg, ord@, k) {
                    assert(segs@[gi as int].seat_ids@.contains(t));
                }
            }
        }
        gi += 1;
    }
    proof {
        assert(segs@.take(segs@.len() as int) =~= segs@);
        assert forall|s: i64| keys@.contains(s) <==> all_seat_ids(segs@).contains(s) by {
            lemma_all_seat_ids_contains(segs@, s);
        }
        assert forall|j: int|
            #![trigger bms@[j]]
            0 <= j < bms@.len() implies bms@[j]@ == seat_bitmap(segs@, ord@, n as nat, keys@[j]) by {
            assert(bms@[j]@ =~= seat_bitmap(segs@, ord@, n as nat, keys@[j]));
        }
    }
    (keys, bms)
}

/// Number of bitmaps in which `[b, e]` is a maximal free run.
pub open spec fn run_count(bms: Seq<Vec<bool>>, b: int, e: int) -> nat
    decreases bms.len(),
{
    if bms.len() == 0 {
        0
    } else {
        run_count(bms.drop_last(), b, e) + if is_free_run(bms.last()@, b, e) {
            1nat
        } else {
            0nat
        }
    }
}

/// No stretch occurs twice in an availability list.
pub open spec fn keys_distinct(r: Seq<((u32, u32), u32)>) -> bool {
    forall|i: int, j: int| 0 <= i < r.len() && 0 <= j < r.len() && i != j ==> r[i].0 != r[j].0
}

/// The count recorded for a stretch in an availability list (0 when absent).
pub open spec fn count_in(r: Seq<((u32, u32), u32)>, key: (u32, u32)) -> nat {
    if exists|i: int| 0 <= i < r.len() && r[i].0 == key {
        r[choose|i: int| 0 <= i < r.len() && r[i].0 == key].1 as nat
    } else {
        0
    }
}

/// A well-formed availability list: distinct stretches, each with a positive count.
pub open spec fn count_list_ok(r: Seq<((u32, u32), u32)>) -> bool {
    &&& keys_distinct(r)
    &&& forall|i: int| #![trigger r[i]] 0 <= i < r.len() ==> r[i].1 > 0
}

proof fn lemma_count_in_at(r: Seq<((u32, u32), u32)>, i: int)
    requires
        keys_distinct(r),
        0 <= i < r.len(),
    ensures
        count_in(r, r[i].0) == r[i].1,
{
    let key = r[i].0;
    assert(exists|t: int| 0 <= t < r.len() && r[t].0 == key);
    let c = choose|t: int| 0 <= t < r.len() && r[t].0 == key;
    assert(c == i);
}

fn find_count_key(r: &Vec<((u32, u32), u32)>, key: (u32, u32)) -> (res: Option<usize>)
    ensures
        match res {
            Some(i) => i < r@.len() && r@[i as int].0 == key,
            None => forall|t: int| 0 <= t < r@.len() ==> r@[t].0 != key,
        },
{
    let mut i: usize = 0;
    while i < r.len()
        invariant
            i <= r@.len(),
            forall|t: int| 0 <= t < i ==> r@[t].0 != key,
        decreases r@.len() - i,
    {
        if r[i].0 .0 == key.0 && r[i].0 .1 == key.1 {
            return Some(i);
        }
        i += 1;
    }
    None
}

/// Adds one to the count of `key`.
fn bump(r: &mut Vec<((u32, u32), u32)>, key: (u32, u32))
    requires
        count_list_ok(old(r)@),
        count_in(old(r)@, key) < u32::MAX,
    ensures
        count_list_ok(final(r)@),
        forall|k: (u32, u32)|
            #[trigger] count_in(final(r)@, k) == count_in(old(r)@, k) + if k == key {
                1nat
            } else {
                0nat
            },
{
    let ghost r0 = r@;
    match find_count_key(r, key) {
        Some(i) => {
            proof {
                lemma_count_in_at(r0, i as int);
            }
            let v = r[i].1;
            r.set(i, (key, v + 1));
            proof {
                assert(keys_distinct(r@)) by {
                    assert forall|a: int, b: int|
                        0 <= a < r@.len() && 0 <= b < r@.len() && a != b implies r@[a].0 != r@[b].0 by {
                        assert(r@[a].0 == r0[a].0);
                        assert(r@[b].0 == r0[b].0);
                    }
                }
                assert forall|k: (u32, u32)|
                    #[trigger] count_in(r@, k) == count_in(r0, k) + if k == key {
                        1nat
                    } else {
                        0nat
                    } by {
                    if k == key {
                        lemma_count_in_at(r@, i as int);
                    } else if exists|t: int| 0 <= t < r0.len() && r0[t].0 == k {
                        let t = choose|t: int| 0 <= t < r0.len() && r0[t].0 == k;
                        lemma_count_in_at(r0, t);
                        lemma_count_in_at(r@, t);
                    } else {
                        assert(!exists|t: int| 0 <= t < r@.len() && r@[t].0 == k) by {
                            if exists|t: int| 0 <= t < r@.len() && r@[t].0 == k {
                                let t = choose|t: int| 0 <= t < r@.len() && r@[t].0 == k;
                                assert(r0[t].0 == k);
                            }
                        }
                    }
                }
            }
        },
        None => {
            r.push((key, 1));
            proof {
                assert(!exists|t: int| 0 <= t < r0.len() && r0[t].0 == key);
                assert forall|k: (u32, u32)|
                    #[trigger] count_in(r@, k) == count_in(r0, k) + if k == key {
                        1nat
                    } else {
                        0nat
                    } by {
                    if k == key {
                        lemma_count_in_at(r@, r0.len() as int);
                    } else if exists|t: int| 0 <= t < r0.len() && r0[t].0 == k {
                        let t = choose|t: int| 0 <= t < r0.len() && r0[t].0 == k;
                        lemma_count_in_at(r0, t);
                        lemma_count_in_at(r@, t);
                    } else {
                        assert(!exists|t: int| 0 <= t < r@.len() && r@[t].0 == k) by {
                            if exists|t: int| 0 <= t < r@.len() && r@[t].0 == k {
                                let t = choose|t: int| 0 <= t < r@.len() && r@[t].0 == k;
                                if t < r0.len() {
                                    assert(r0[t].0 == k);
                                }
                            }
                        }
                    }
                }
            }
        },
    }
}

/// Progress of the scan over one seat's stops.
#[derive(PartialEq, Eq, Clone, Copy, Structural)]
enum Scan {
    Begin,
    InOccupied,
    InAvailable,
}

/// Counts, over all bitmaps, the maximal free runs of each stretch.
fn count_free_runs(bms: &Vec<Vec<bool>>, n: usize) -> (r: Vec<((u32, u32), u32)>)
    requires
        n <= u32::MAX,
        bms@.len() < u32::MAX,
        forall|j: int| #![trigger bms@[j]] 0 <= j < bms@.len() ==> bms@[j]@.len() == n,
    ensures
        count_list_ok(r@),
        forall|k: (u32, u32)| #[trigger] count_in(r@, k) == run_count(bms@, k.0 as int, k.1 as int),
{
    let mut r: Vec<((u32, u32), u32)> = Vec::new();
    let mut idx: usize = 0;
    while idx < bms.len()
        invariant
            n <= u32::MAX,
            bms@.len() < u32::MAX,
            forall|j: int| #![trigger bms@[j]] 0 <= j < bms@.len() ==> bms@[j]@.len() == n,
            idx <= bms@.len(),
            count_list_ok(r@),
            forall|k: (u32, u32)|
                #[trigger] count_in(r@, k) == run_count(bms@.take(idx as int), k.0 as int, k.1 as int),
            forall|k: (u32, u32)| #[trigger] count_in(r@, k) <= idx,
        decreases bms@.len() - idx,
    {
        let bm = &bms[idx];
        let ghost base = r@;
        let mut begin_order: usize = 0;
        let mut status = Scan::Begin;
        let mut i: usize = 0;
        while i < bm.len()
            invariant
                n <= u32::MAX,
                bm@.len() == n,
                idx < bms@.len() < u32::MAX,
                i <= n,
                (status == Scan::Begin) <==> (i == 0),
                status == Scan::InOccupied ==> bm@[i - 1],
                status == Scan::InAvailable ==> {
                    &&& begin_order < i
                    &&& forall|k: int| begin_order <= k < i ==> !#[trigger] bm@[k]
                    &&& (begin_order == 0 || bm@[begin_order - 1])
                },
                count_list_ok(r@),
                forall|k: (u32, u32)|
                    #[trigger] count_in(r@, k) == count_in(base, k) + if is_free_run(
                        bm@,
                        k.0 as int,
                        k.1 as int,
                    ) && k.1 + 1 < i {
                        1nat
                    } else {
                        0nat
                    },
                forall|k: (u32, u32)| #[trigger] count_in(base, k) <= idx,
            decreases n - i,
        {
            let occupied = bm[i];
            match status {
                Scan::Begin => {
                    if occupied {
                        status = Scan::InOccupied;
                    } else {
                        status = Scan::InAvailable;
                        begin_order = i;
                    }
                },
                Scan::InAvailable => {
                    if occupied {
                        status = Scan::InOccupied;
                        let end_order = i - 1;
                        let key = (begin_order as u32, end_order as u32);
                        proof {
                            assert(is_free_run(bm@, begin_order as int, end_order as int));
                        }
                        let ghost before = r@;
                        bump(&mut r, key);
                        proof {
                            assert forall|k: (u32, u32)|
                                #[trigger] count_in(r@, k) == count_in(base, k) + if is_free_run(
                                    bm@,
                                    k.0 as int,
                                    k.1 as int,
                                ) && k.1 + 1 < i + 1 {
                                    1nat
                                } else {
                                    0nat
                                } by {
                                assert(count_in(r@, k) == count_in(before, k) + if k == key {
                                    1nat
                                } else {
                                    0nat
                                });
                                if is_free_run(bm@, k.0 as int, k.1 as int) && k.1 + 1 == i {
                                    if k.0 < begin_order {
                                        assert(!bm@[begin_order - 1]);
                                    }
                                    if k.0 > begin_order {
                                        assert(!bm@[k.0 - 1]);
                                    }
                                }
                            }
                        }
                    }
                },
                Scan::InOccupied => {
                    if !occupied {
                        status = Scan::InAvailable;
                        begin_order = i;
                    }
                },
            }
            i += 1;
        }
        if status == Scan::InAvailable {
            let end_order = bm.len() - 1;
            let key = (begin_order as u32, end_order as u32);
            let ghost before = r@;
            bump(&mut r, key);
            proof {
                assert forall|k: (u32, u32)|
                    #[trigger] count_in(r@, k) == count_in(base, k) + if is_free_run(
                        bm@,
                        k.0 as int,
                        k.1 as int,
                    ) {
                        1nat
                    } else {
                        0nat
                    } by {
                    assert(count_in(r@, k) == count_in(before, k) + if k == key {
                        1nat
                    } else {
                        0nat
                    });
                    if is_free_run(bm@, k.0 as int, k.1 as int) && k.1 + 1 == n {
                        if k.0 < begin_order {
                            assert(!bm@[begin_order - 1]);
                        }
                        if k.0 > begin_order {
                            assert(!bm@[k.0 - 1]);
                        }
                    }
                }
            }
        } else {
            proof {
                assert forall|k: (u32, u32)|
                    #[trigger] count_in(r@, k) == count_in(base, k) + if is_free_run(
                        bm@,
                        k.0 as int,
                        k.1 as int,
                    ) {
                        1nat
                    } else {
                        0nat
                    } by {
                    if is_free_run(bm@, k.0 as int, k.1 as int) {
                        assert(k.1 + 1 < n || bm@[n - 1]);
                    }
                }
            }
        }
        proof {
            assert(bms@.take(idx + 1).drop_last() =~= bms@.take(idx as int));
            assert(bms@.take(idx + 1).last() == bms@[idx as int]);
        }
        idx += 1;
    }
    proof {
        assert(bms@.take(idx as int) =~= bms@);
    }
    r
}

proof fn lemma_run_count_is_set_count(
    segs: Seq<OccupiedSegment>,
    ord: Map<i32, u32>,
    n: nat,
    keys: Seq<i64>,
    bms: Seq<Vec<bool>>,
    b: int,
    e: int,
    m: int,
)
    requires
        keys.len() == bms.len(),
        keys.no_duplicates(),
        0 <= m <= keys.len(),
        forall|j: int| #![trigger bms[j]] 0 <= j < bms.len() ==> bms[j]@ == seat_bitmap(segs, ord, n, keys[j]),
    ensures
        run_count(bms.take(m), b, e) == keys.take(m).to_set().filter(
            |s: i64| is_free_run(seat_bitmap(segs, ord, n, s), b, e),
        ).len(),
    decreases m,
{
    broadcast use vstd::set::group_set_axioms;
    broadcast use vstd::seq_lib::seq_to_set_is_finite;

    let p = |s: i64| is_free_run(seat_bitmap(segs, ord, n, s), b, e);
    if m == 0 {
        assert(keys.take(0).to_set() =~= Set::<i64>::empty());
        assert(keys.take(0).to_set().filter(p) =~= Set::<i64>::empty());
        assert(bms.take(0) =~= Seq::<Vec<bool>>::empty());
    } else {
        lemma_run_count_is_set_count(segs, ord, n, keys, bms, b, e, m - 1);
        let pre = keys.take(m - 1);
        let cur = keys.take(m);
        let prev = pre.to_set();
        let x = keys[m - 1];
        assert(keys.take(m).to_set() =~= prev.insert(x)) by {
            assert forall|t: i64| keys.take(m).to_set().contains(t) <==> prev.insert(x).contains(t) by {
                if cur.contains(t) {
                    let i = choose|i: int| 0 <= i < cur.len() && cur[i] == t;
                    if i < m - 1 {
                        assert(pre[i] == t);
                    }
                }
                if pre.contains(t) {
                    let i = choose|i: int| 0 <= i < pre.len() && pre[i] == t;
                    assert(cur[i] == t);
                }
                assert(cur[m - 1] == x);
            }
        }
        assert(!prev.contains(x)) by {
            if pre.contains(x) {
                let i = choose|i: int| 0 <= i < pre.len() && pre[i] == x;
                assert(keys[i] == keys[m - 1]);
            }
        }
        prev.lemma_len_filter(p);
        if p(x) {
            assert(prev.insert(x).filter(p) =~= prev.filter(p).insert(x));
        } else {
            assert(prev.insert(x).filter(p) =~= prev.filter(p));
        }
        assert(bms.take(m).drop_last() =~= bms.take(m - 1));
        assert(bms.take(m).last() == bms[m - 1]);
    }
}

proof fn lemma_first_index(info: Seq<SeatTypeOccupancy>, seat_type_id: i32, t: int)
    requires
        0 <= t < info.len(),
        info[t].seat_type_id == seat_type_id,
        forall|j: int| 0 <= j < t ==> info[j].seat_type_id != seat_type_id,
    ensures
        first_index_of(info, seat_type_id) == t,
{
    let c = first_index_of(info, seat_type_id);
    if c < t {
        assert(info[c].seat_type_id != seat_type_id);
    }
    if c > t {
        assert(info[t].seat_type_id != seat_type_id);
    }
}

proof fn lemma_counts_are_seat_counts(
    segs: Seq<OccupiedSegment>,
    ord: Map<i32, u32>,
    n: nat,
    keys: Seq<i64>,
    bms: Seq<Vec<bool>>,
    r: Seq<((u32, u32), u32)>,
)
    requires
        keys.len() == bms.len(),
        keys.no_duplicates(),
        forall|s: i64| keys.contains(s) <==> all_seat_ids(segs).contains(s),
        forall|j: int| #![trigger bms[j]] 0 <= j < bms.len() ==> bms[j]@ == seat_bitmap(segs, ord, n, keys[j]),
        forall|k: (u32, u32)| #[trigger] count_in(r, k) == run_count(bms, k.0 as int, k.1 as int),
    ensures
        forall|k: (u32, u32)| #[trigger] count_in(r, k) == free_run_count(segs, ord, n, k.0 as int, k.1 as int),
{
    assert(keys.to_set() =~= all_seat_ids(segs).to_set());
    assert(keys.take(keys.len() as int) =~= keys);
    assert(bms.take(bms.len() as int) =~= bms);
    assert forall|k: (u32, u32)| #[trigger] count_in(r, k) == free_run_count(segs, ord, n, k.0 as int, k.1 as int) by {
        lemma_run_count_is_set_count(segs, ord, n, keys, bms, k.0 as int, k.1 as int, keys.len() as int);
    }
}

fn find_seat_type(info: &Vec<SeatTypeOccupancy>, seat_type_id: i32) -> (t: usize)
    requires
        exists|i: int| 0 <= i < info@.len() && info@[i].seat_type_id == seat_type_id,
    ensures
        t < info@.len(),
        t == first_index_of(info@, seat_type_id),
        info@[t as int].segments@ == segments_of(info@, seat_type_id),
{
    let mut t: usize = 0;
    while t < info.len()
        invariant
            t <= info@.len(),
            exists|i: int| t <= i < info@.len() && info@[i].seat_type_id == seat_type_id,
            forall|j: int| 0 <= j < t ==> info@[j].seat_type_id != seat_type_id,
        decreases info@.len() - t,
    {
        if info[t].seat_type_id == seat_type_id {
            proof {
                lemma_first_index(info@, seat_type_id, t as int);
            }
            return t;
        }
        t += 1;
    }
    t
}

/// For each stretch `(first, last)` of stop orders, the number of seats of the
/// given seat type that are occupied somewhere on the route and whose free
/// stretch is exactly `first..=last`; stretches of no seat are absent.
pub fn calc_available_seat_count_map(
    seat_type_id: i32,
    occupied_seat_info_map: &Vec<SeatTypeOccupancy>,
    station_id_to_order_map: &HashMap<i32, u32>,
    route_stops_count: usize,
) -> (r: Vec<((u32, u32), u32)>)
    requires
        seat_count_inputs_ok(
            occupied_seat_info_map@,
            seat_type_id,
            station_id_to_order_map@,
            route_stops_count as nat,
        ),
    ensures
        count_list_ok(r@),
        forall|k: (u32, u32)|
            #[trigger] count_in(r@, k) == free_run_count(
                segments_of(occupied_seat_info_map@, seat_type_id),
                station_id_to_order_map@,
                route_stops_count as nat,
                k.0 as int,
                k.1 as int,
            ),
{
    let t = find_seat_type(occupied_seat_info_map, seat_type_id);
    let segs = &occupied_seat_info_map[t].segments;
    let (keys, bms) = build_seat_bitmaps(segs, station_id_to_order_map, route_stops_count);
    let r = count_free_runs(&bms, route_stops_count);
    proof {
        lemma_counts_are_seat_counts(segs@, station_id_to_order_map@, route_stops_count as nat, keys@, bms@, r@);
    }
    r
}

/// Where a seat is in the train: carriage, row and the letter of its place.
#[derive(Debug, Clone, Copy, PartialEq, Eq)]
pub struct SeatLocationInfo {
    pub carriage: i32,
    pub row: i32,
    pub location: char,
}

/// Whether a seat is taken.
#[derive(Debug, Clone, Copy, PartialEq, Eq)]
pub enum SeatStatus {
    Available,
    Occupied,
}

/// A seat of a train, of a seat type.
#[derive(Debug, Clone, Copy, PartialEq, Eq)]
pub struct Seat {
    pub id: i64,
    pub seat_type_id: u64,
    pub location_info: SeatLocationInfo,
    pub status: SeatStatus,
}

/// The seats of one seat type of a schedule between two stations, with the
/// seats already taken.
#[derive(Debug, Clone)]
pub struct SeatAvailability {
    pub id: Option<u64>,
    pub train_schedule_id: u64,
    pub seat_type_id: u64,
    pub from_station_id: u64,
    pub to_station_id: u64,
    pub occupied_seat: Vec<Seat>,
}

/// Errors of the train seat service.
#[derive(Debug, Clone, PartialEq, Eq)]
pub enum TrainSeatServiceError {
    InfrastructureError(crate::domain::RepositoryError),
    InvalidSeatAvailability(u64),
    NoAvailableSeat,
}

/// Seat `id` is among the taken seats.
pub open spec fn is_taken(occupied: Seq<Seat>, id: i64) -> bool {
    exists|k: int| 0 <= k < occupied.len() && occupied[k].id == id
}

/// Index of the first seat of the list that is free and at the preferred
/// place letter, or -1.
pub open spec fn first_free_at(occupied: Seq<Seat>, seats: Seq<(i64, SeatLocationInfo)>, preferred: char) -> int
    decreases seats.len(),
{
    if seats.len() == 0 {
        -1
    } else if first_free_at(occupied, seats.drop_last(), preferred) >= 0 {
        first_free_at(occupied, seats.drop_last(), preferred)
    } else if !is_taken(occupied, seats.last().0) && seats.last().1.location == preferred {
        seats.len() - 1
    } else {
        -1
    }
}

proof fn lemma_first_free_at_prefix(occupied: Seq<Seat>, seats: Seq<(i64, SeatLocationInfo)>, preferred: char, n: int)
    requires
        0 <= n <= seats.len(),
        first_free_at(occupied, seats.take(n), preferred) >= 0,
    ensures
        first_free_at(occupied, seats, preferred) == first_free_at(occupied, seats.take(n), preferred),
    decreases seats.len(),
{
    if seats.len() > n {
        assert(seats.drop_last().take(n) =~= seats.take(n));
        lemma_first_free_at_prefix(occupied, seats.drop_last(), preferred, n);
    } else {
        assert(seats.take(n) =~= seats);
    }
}

fn taken(occupied: &Vec<Seat>, id: i64) -> (b: bool)
    ensures
        b == is_taken(occupied@, id),
{
    let mut k: usize = 0;
    while k < occupied.len()
        invariant
            k <= occupied@.len(),
            forall|t: int| 0 <= t < k ==> occupied@[t].id != id,
        decreases occupied@.len() - k,
    {
        if occupied[k].id == id {
            return true;
        }
        k += 1;
    }
    false
}

/// The train seat service; the repositories and the train type service are
/// reached by the caller.
pub struct TrainSeatServiceImpl<SAR, RR, TTCS, TSR> {
    pub seat_availability_repository: Arc<SAR>,
    pub route_repository: Arc<RR>,
    pub train_type_configuration_service: Arc<TTCS>,
    pub train_schedule_repository: Arc<TSR>,
}

impl<SAR, RR, TTCS, TSR> TrainSeatServiceImpl<SAR, RR, TTCS, TSR> {
    /// A service over the two repositories for seats and routes, the train
    /// type service and the schedule repository.
    pub fn new(
        seat_availability_repository: Arc<SAR>,
        route_repository: Arc<RR>,
        train_type_configuration_service: Arc<TTCS>,
        train_schedule_repository: Arc<TSR>,
    ) -> (s: Self)
        ensures
            s.seat_availability_repository == seat_availability_repository,
            s.route_repository == route_repository,
            s.train_type_configuration_service == train_type_configuration_service,
            s.train_schedule_repository == train_schedule_repository,
    {
        Self {
            seat_availability_repository,
            route_repository,
            train_type_configuration_service,
            train_schedule_repository,
        }
    }

    /// Number of seats of the seat type that are free over exactly the
    /// stretch from `from_station` to `to_station` of the route, among the
    /// seats occupied somewhere on it.
    pub fn available_seats_count(
        &self,
        seat_type_id: i32,
        occupied_seat_info_map: &Vec<SeatTypeOccupancy>,
        route: &Route,
        from_station: u64,
        to_station: u64,
    ) -> (r: u32)
        requires
            seat_count_inputs_ok(
                occupied_seat_info_map@,
                seat_type_id,
                stop_order_map(route.stops@),
                route.stops@.len(),
            ),
            stop_order_map(route.stops@).contains_key(station_db_id(from_station)),
            stop_order_map(route.stops@).contains_key(station_db_id(to_station)),
        ensures
            r == free_run_count(
                segments_of(occupied_seat_info_map@, seat_type_id),
                stop_order_map(route.stops@),
                route.stops@.len(),
                stop_order_map(route.stops@)[station_db_id(from_station)] as int,
                stop_order_map(route.stops@)[station_db_id(to_station)] as int,
            ),
    {
        let ord = calc_station_id_to_order_map(route);
        let counts = calc_available_seat_count_map(
            seat_type_id,
            occupied_seat_info_map,
            &ord,
            route.stops.len(),
        );
        let b = match ord.get(&to_db_value(from_station)) {
            Some(b) => *b,
            None => 0,
        };
        let e = match ord.get(&to_db_value(to_station)) {
            Some(e) => *e,
            None => 0,
        };
        let key = (b, e);
        proof {
            assert(count_in(counts@, key) == free_run_count(
                segments_of(occupied_seat_info_map@, seat_type_id),
                ord@,
                route.stops@.len(),
                key.0 as int,
                key.1 as int,
            ));
        }
        match find_count_key(&counts, key) {
            Some(i) => {
                proof {
                    lemma_count_in_at(counts@, i as int);
                }
                counts[i].1
            },
            None => 0,
        }
    }

    /// The seat given for a reservation: the first seat of the list for the
    /// seat type that is not taken and is at the preferred place letter,
    /// marked occupied; `NoAvailableSeat` when there is none. The seats taken
    /// are left as they were.
    pub fn reserve_seat(
        &self,
        availability: &SeatAvailability,
        seat_list: &Vec<(i64, SeatLocationInfo)>,
        preferred_location: char,
    ) -> (r: Result<Seat, TrainSeatServiceError>)
        ensures
            ({
                let k = first_free_at(availability.occupied_seat@, seat_list@, preferred_location);
                if k < 0 {
                    r == Err::<Seat, _>(TrainSeatServiceError::NoAvailableSeat)
                } else {
                    &&& k < seat_list@.len()
                    &&& r == Ok::<_, TrainSeatServiceError>(
                        Seat {
                            id: seat_list@[k].0,
                            seat_type_id: availability.seat_type_id,
                            location_info: seat_list@[k].1,
                            status: SeatStatus::Occupied,
                        },
                    )
                }
            }),
    {
        let mut i: usize = 0;
        while i < seat_list.len()
            invariant
                i <= seat_list@.len(),
                first_free_at(availability.occupied_seat@, seat_list@.take(i as int), preferred_location) < 0,
            decreases seat_list@.len() - i,
        {
            let (id, loc) = seat_list[i];
            proof {
                assert(seat_list@.take(i + 1).drop_last() =~= seat_list@.take(i as int));
                assert(seat_list@.take(i + 1).last() == seat_list@[i as int]);
            }
            if !taken(&availability.occupied_seat, id) && loc.location == preferred_location {
                proof {
                    lemma_first_free_at_prefix(availability.occupied_seat@, seat_list@, preferred_location, i + 1);
                }
                return Ok(
                    Seat {
                        id,
                        seat_type_id: availability.seat_type_id,
                        location_info: loc,
                        status: SeatStatus::Occupied,
                    },
                );
            }
            i += 1;
        }
        proof {
            assert(seat_list@.take(i as int) =~= seat_list@);
        }
        Err(TrainSeatServiceError::NoAvailableSeat)
    }

    /// Frees a seat: the taken seats lose every entry with its id.
    pub fn free_seat(&self, availability: &mut SeatAvailability, seat: &Seat)
        ensures
            final(availability).occupied_seat@ == old(availability).occupied_seat@.filter(
                |x: Seat| x.id != seat.id,
            ),
            final(availability).id == old(availability).id,
            final(availability).train_schedule_id == old(availability).train_schedule_id,
            final(availability).seat_type_id == old(availability).seat_type_id,
            final(availability).from_station_id == old(availability).from_station_id,
            final(availability).to_station_id == old(availability).to_station_id,
    {
        let mut kept: Vec<Seat> = Vec::new();
        let mut i: usize = 0;
        let ghost old_seats = availability.occupied_seat@;
        while i < availability.occupied_seat.len()
            invariant
                availability.occupied_seat@ == old_seats,
                i <= old_seats.len(),
                kept@ == old_seats.take(i as int).filter(|x: Seat| x.id != seat.id),
            decreases old_seats.len() - i,
        {
            let x = availability.occupied_seat[i];
            proof {
                assert(old_seats.take(i + 1).drop_last() =~= old_seats.take(i as int));
                reveal(Seq::filter);
                assert(old_seats.take(i + 1).last() == x);
            }
            if x.id != seat.id {
                kept.push(x);
            }
            i += 1;
        }
        proof {
            assert(old_seats.take(i as int) =~= old_seats);
            reveal(Seq::filter);
        }
        availability.occupied_seat = kept;
    }
}

/// The seat availability found under `seat_availability_id` for a seat
/// count: `InvalidSeatAvailability` when there is none.
pub fn seat_availability_found(
    seat_availability_id: u64,
    found: Result<Option<SeatAvailability>, crate::domain::RepositoryError>,
) -> (r: Result<SeatAvailability, TrainSeatServiceError>)
    ensures
        match found {
            Err(e) => r == Err::<SeatAvailability, _>(TrainSeatServiceError::InfrastructureError(e)),
            Ok(None) => r == Err::<SeatAvailability, _>(
                TrainSeatServiceError::InvalidSeatAvailability(seat_availability_id),
            ),
            Ok(Some(sa)) => r == Ok::<SeatAvailability, TrainSeatServiceError>(sa),
        },
{
    match found {
        Err(e) => Err(TrainSeatServiceError::InfrastructureError(e)),
        Ok(None) => Err(TrainSeatServiceError::InvalidSeatAvailability(seat_availability_id)),
        Ok(Some(sa)) => Ok(sa),
    }
}

/// The route found for the schedule of a seat availability: a missing route
/// is an inconsistent store.
pub fn route_for_seat_count(found: Result<Option<Route>, crate::domain::RepositoryError>) -> (r: Result<
    Route,
    TrainSeatServiceError,
>)
    ensures
        match found {
            Err(e) => r == Err::<Route, _>(TrainSeatServiceError::InfrastructureError(e)),
            Ok(None) => r matches Err(
                TrainSeatServiceError::InfrastructureError(crate::domain::RepositoryError::InconsistentState(_)),
            ),
            Ok(Some(rt)) => r == Ok::<Route, TrainSeatServiceError>(rt),
        },
{
    match found {
        Err(e) => Err(TrainSeatServiceError::InfrastructureError(e)),
        Ok(None) => Err(
            TrainSeatServiceError::InfrastructureError(
                crate::domain::RepositoryError::InconsistentState("no route for train schedule".to_owned()),
            ),
        ),
        Ok(Some(rt)) => Ok(rt),
    }
}

} // verus!
