//! Loading menus and takeaway shops from raw data: which pictures to upload
//! (each once), and the rows and shops to store.
use vstd::prelude::*;

use crate::train_schedule::dedup;

verus! {

/// A dish of the raw menu data, without its price.
#[derive(Debug, Clone)]
pub struct RawDish {
    pub name: String,
    pub dish_type: String,
    pub picture: String,
    pub available_time: Vec<String>,
}

/// A dish row to store: one per dish and serving time; `source_group` and
/// `source_dish` give the position of the raw dish it comes from.
#[derive(Debug, Clone)]
pub struct DishRow {
    pub train_id: u64,
    pub dish_type: String,
    pub time: String,
    pub name: String,
    pub picture: String,
    pub source_group: usize,
    pub source_dish: usize,
}

/// Why raw data could not be loaded: a train number or station name that
/// the store does not know.
#[derive(Debug, Clone, PartialEq, Eq)]
pub enum RawDataError {
    UnknownTrainNumber(String),
    UnknownStation(String),
}

/// The id of the last entry named `name`: the entries keyed by name.
pub open spec fn id_named(entries: Seq<(String, u64)>, name: Seq<char>) -> Option<u64>
    decreases entries.len(),
{
    if entries.len() == 0 {
        None
    } else if entries.last().0@ == name {
        Some(entries.last().1)
    } else {
        id_named(entries.drop_last(), name)
    }
}

fn find_id(entries: &Vec<(String, u64)>, name: &String) -> (r: Option<u64>)
    ensures
        r == id_named(entries@, name@),
{
    let mut k: usize = entries.len();
    assert(entries@.take(k as int) =~= entries@);
    while k > 0
        invariant
            k <= entries@.len(),
            id_named(entries@, name@) == id_named(entries@.take(k as int), name@),
        decreases k,
    {
        proof {
            assert(entries@.take(k as int).drop_last() =~= entries@.take(k - 1));
            assert(entries@.take(k as int).last() == entries@[k - 1]);
        }
        if entries[k - 1].0 == *name {
            return Some(entries[k - 1].1);
        }
        k -= 1;
    }
    proof {
        assert(entries@.take(0) =~= Seq::<(String, u64)>::empty());
    }
    None
}

/// The pictures of the dishes, in order, with repetitions.
pub open spec fn dish_pictures(dishes: Seq<RawDish>) -> Seq<Seq<char>>
    decreases dishes.len(),
{
    if dishes.len() == 0 {
        Seq::empty()
    } else {
        dish_pictures(dishes.drop_last()).push(dishes.last().picture@)
    }
}

/// The pictures of all groups, in order, with repetitions.
pub open spec fn all_pictures(groups: Seq<(String, Vec<RawDish>)>) -> Seq<Seq<char>>
    decreases groups.len(),
{
    if groups.len() == 0 {
        Seq::empty()
    } else {
        all_pictures(groups.drop_last()) + dish_pictures(groups.last().1@)
    }
}

/// The first train group, in order, whose train number is unknown, if any.
pub open spec fn first_unknown_train(trains: Seq<(String, u64)>, groups: Seq<(String, Vec<RawDish>)>) -> Option<
    Seq<char>,
>
    decreases groups.len(),
{
    if groups.len() == 0 {
        None
    } else {
        match first_unknown_train(trains, groups.drop_last()) {
            Some(n) => Some(n),
            None => if id_named(trains, groups.last().0@) is None {
                Some(groups.last().0@)
            } else {
                None
            },
        }
    }
}

/// The positions (group, dish, serving time) of the rows of dish `d` of
/// group `g`: one per serving time, in order.
pub open spec fn time_keys(g: int, d: int, n: nat) -> Seq<(int, int, int)> {
    Seq::new(n, |t: int| (g, d, t))
}

/// The positions of the rows of group `g`: for each dish in order, one per
/// serving time, in order.
pub open spec fn dish_keys(g: int, dishes: Seq<RawDish>) -> Seq<(int, int, int)>
    decreases dishes.len(),
{
    if dishes.len() == 0 {
        Seq::empty()
    } else {
        dish_keys(g, dishes.drop_last()) + time_keys(
            g,
            dishes.len() - 1,
            dishes.last().available_time@.len(),
        )
    }
}

/// The positions of all rows: group by group, dish by dish, serving time
/// by serving time, each position once.
pub open spec fn row_keys(groups: Seq<(String, Vec<RawDish>)>) -> Seq<(int, int, int)>
    decreases groups.len(),
{
    if groups.len() == 0 {
        Seq::empty()
    } else {
        row_keys(groups.drop_last()) + dish_keys(groups.len() - 1, groups.last().1@)
    }
}

/// `r` is the row of the dish `d` of group `g` at its `t`-th serving time:
/// the group's train, the dish's name, type and picture, and that time.
pub open spec fn row_is(
    r: DishRow,
    key: (int, int, int),
    trains: Seq<(String, u64)>,
    groups: Seq<(String, Vec<RawDish>)>,
) -> bool {
    let (g, d, t) = key;
    let dish = groups[g].1@[d];
    &&& r.source_group == g
    &&& r.source_dish == d
    &&& Some(r.train_id) == id_named(trains, groups[g].0@)
    &&& r.name@ == dish.name@
    &&& r.dish_type@ == dish.dish_type@
    &&& r.picture@ == dish.picture@
    &&& r.time@ == dish.available_time@[t]@
}

/// Row `k` is the row at the `k`-th position of `keys`, and there is one
/// row per position.
pub open spec fn rows_follow(
    rows: Seq<DishRow>,
    keys: Seq<(int, int, int)>,
    trains: Seq<(String, u64)>,
    groups: Seq<(String, Vec<RawDish>)>,
) -> bool {
    &&& rows.len() == keys.len()
    &&& forall|k: int| 0 <= k < rows.len() ==> row_is(#[trigger] rows[k], keys[k], trains, groups)
}

fn contains_text(v: &Vec<String>, s: &String) -> (b: bool)
    ensures
        b == exists|k: int| 0 <= k < v@.len() && v@[k]@ == s@,
{
    let mut k: usize = 0;
    while k < v.len()
        invariant
            k <= v@.len(),
            forall|t: int| 0 <= t < k ==> v@[t]@ != s@,
        decreases v@.len() - k,
    {
        if v[k] == *s {
            return true;
        }
        k += 1;
    }
    false
}

/// Views of the texts.
pub open spec fn texts(v: Seq<String>) -> Seq<Seq<char>> {
    v.map_values(|s: String| s@)
}

/// Plans the loading of a raw menu, given the trains known by number: the
/// pictures to upload (each once, in order of first use) and the rows to
/// store, one per dish and serving time, in order; refused at the first
/// train number that is not known.
pub fn plan_dish_rows(trains: &Vec<(String, u64)>, groups: &Vec<(String, Vec<RawDish>)>) -> (r: Result<
    (Vec<String>, Vec<DishRow>),
    RawDataError,
>)
    ensures
        match first_unknown_train(trains@, groups@) {
            Some(n) => r matches Err(RawDataError::UnknownTrainNumber(s)) && s@ == n,
            None => r matches Ok((pics, rows)) && texts(pics@) == dedup(all_pictures(groups@)) && rows_follow(
                rows@,
                row_keys(groups@),
                trains@,
                groups@,
            ),
        },
{
    let mut pics: Vec<String> = Vec::new();
    let mut rows: Vec<DishRow> = Vec::new();
    let mut g: usize = 0;
    while g < groups.len()
        invariant
            g <= groups@.len(),
            first_unknown_train(trains@, groups@.take(g as int)) is None,
            texts(pics@) == dedup(all_pictures(groups@.take(g as int))),
            rows_follow(rows@, row_keys(groups@.take(g as int)), trains@, groups@),
        decreases groups@.len() - g,
    {
        proof {
            assert(groups@.take(g + 1).drop_last() =~= groups@.take(g as int));
            assert(groups@.take(g + 1).last() == groups@[g as int]);
        }
        let number = &groups[g].0;
        let train_id = match find_id(trains, number) {
            Some(id) => id,
            None => {
                proof {
                    lemma_unknown_prefix(trains@, groups@, g + 1);
                }
                return Err(RawDataError::UnknownTrainNumber(number.clone()));
            },
        };
        let dishes = &groups[g].1;
        let ghost before_pics = all_pictures(groups@.take(g as int));
        let ghost before_keys = row_keys(groups@.take(g as int));
        let mut d: usize = 0;
        while d < dishes.len()
            invariant
                g < groups@.len(),
                dishes@ == groups@[g as int].1@,
                Some(train_id) == id_named(trains@, groups@[g as int].0@),
                d <= dishes@.len(),
                texts(pics@) == dedup(before_pics + dish_pictures(dishes@.take(d as int))),
                rows_follow(rows@, before_keys + dish_keys(g as int, dishes@.take(d as int)), trains@, groups@),
            decreases dishes@.len() - d,
        {
            let dish = &dishes[d];
            proof {
                assert(dishes@.take(d + 1).drop_last() =~= dishes@.take(d as int));
                assert(dishes@.take(d + 1).last() == dishes@[d as int]);
                assert(before_pics + dish_pictures(dishes@.take(d + 1)) =~= (before_pics + dish_pictures(
                    dishes@.take(d as int),
                )).push(dish.picture@));
                crate::train_schedule::lemma_dedup_push(
                    before_pics + dish_pictures(dishes@.take(d as int)),
                    dish.picture@,
                );
            }
            let ghost p0 = pics@;
            if !contains_text(&pics, &dish.picture) {
                pics.push(dish.picture.clone());
                proof {
                    assert(texts(pics@) =~= texts(p0).push(dish.picture@));
                }
            } else {
                proof {
                    let k = choose|k: int| 0 <= k < p0.len() && p0[k]@ == dish.picture@;
                    assert(texts(p0)[k] == dish.picture@);
                }
            }
            let times = &dish.available_time;
            let ghost k0 = before_keys + dish_keys(g as int, dishes@.take(d as int));
            let mut t: usize = 0;
            while t < times.len()
                invariant
                    g < groups@.len(),
                    d < groups@[g as int].1@.len(),
                    *dish == groups@[g as int].1@[d as int],
                    times@ == dish.available_time@,
                    Some(train_id) == id_named(trains@, groups@[g as int].0@),
                    t <= times@.len(),
                    rows_follow(rows@, k0 + time_keys(g as int, d as int, t as nat), trains@, groups@),
                decreases times@.len() - t,
            {
                let row = DishRow {
                    train_id,
                    dish_type: dish.dish_type.clone(),
                    time: times[t].clone(),
                    name: dish.name.clone(),
                    picture: dish.picture.clone(),
                    source_group: g,
                    source_dish: d,
                };
                rows.push(row);
                proof {
                    let keys = k0 + time_keys(g as int, d as int, (t + 1) as nat);
                    assert(keys =~= (k0 + time_keys(g as int, d as int, t as nat)).push((g as int, d as int, t as int)));
                    assert forall|k: int| 0 <= k < rows@.len() implies row_is(
                        #[trigger] rows@[k],
                        keys[k],
                        trains@,
                        groups@,
                    ) by {
                        if k < rows@.len() - 1 {
                            assert(rows@[k] == rows@.drop_last()[k]);
                        }
                    }
                }
                t += 1;
            }
            proof {
                assert(dishes@.take(d + 1).drop_last() =~= dishes@.take(d as int));
                assert(k0 + time_keys(g as int, d as int, t as nat) =~= before_keys + dish_keys(
                    g as int,
                    dishes@.take(d + 1),
                ));
            }
            d += 1;
        }
        proof {
            assert(dishes@.take(d as int) =~= dishes@);
            assert(row_keys(groups@.take(g + 1)) == before_keys + dish_keys(g as int, dishes@));
            assert(all_pictures(groups@.take(g + 1)) == before_pics + dish_pictures(dishes@));
        }
        g += 1;
    }
    proof {
        assert(groups@.take(g as int) =~= groups@);
    }
    Ok((pics, rows))
}

proof fn lemma_unknown_prefix(trains: Seq<(String, u64)>, groups: Seq<(String, Vec<RawDish>)>, n: int)
    requires
        0 <= n <= groups.len(),
        first_unknown_train(trains, groups.take(n)) is Some,
    ensures
        first_unknown_train(trains, groups) == first_unknown_train(trains, groups.take(n)),
    decreases groups.len(),
{
    if groups.len() > n {
        assert(groups.drop_last().take(n) =~= groups.take(n));
        lemma_unknown_prefix(trains, groups.drop_last(), n);
    } else {
        assert(groups.take(n) =~= groups);
    }
}

/// The ranges of rows stored in one statement each: consecutive ranges of
/// `size` rows, the last one shorter when `n` is not a multiple of `size`.
pub fn chunk_ranges(n: usize, size: usize) -> (r: Vec<(usize, usize)>)
    requires
        size > 0,
    ensures
        r@.len() == (if n % size == 0 { (n / size) as int } else { n / size + 1 }),
        forall|k: int|
            0 <= k < r@.len() ==> (#[trigger] r@[k]).0 == k * size && r@[k].1 == (if (k + 1) * size <= n {
                (k + 1) * size
            } else {
                n as int
            }),
{
    let mut r: Vec<(usize, usize)> = Vec::new();
    let mut start: usize = 0;
    while start < n
        invariant
            size > 0,
            start <= n,
            start == n || start == r@.len() * size,
            r@.len() * size >= start,
            r@.len() > 0 ==> (r@.len() - 1) * size < n,
            forall|k: int|
                0 <= k < r@.len() ==> (#[trigger] r@[k]).0 == k * size && r@[k].1 == (if (k + 1) * size <= n {
                    (k + 1) * size
                } else {
                    n as int
                }),
        decreases n - start,
    {
        let ghost len = r@.len();
        proof {
            assert((len + 1) * size == len * size + size) by (nonlinear_arith);
        }
        let end = if n - start > size {
            start + size
        } else {
            n
        };
        r.push((start, end));
        start = end;
    }
    proof {
        lemma_chunk_count(n as int, size as int, r@.len() as int);
    }
    r
}

proof fn lemma_chunk_count(n: int, size: int, c: int)
    requires
        size > 0,
        n >= 0,
        c >= 0,
        c * size >= n,
        c > 0 ==> (c - 1) * size < n,
    ensures
        c == (if n % size == 0 { n / size } else { n / size + 1 }),
{
    assert(c == (if n % size == 0 { n / size } else { n / size + 1 })) by (nonlinear_arith)
        requires
            size > 0,
            n >= 0,
            c >= 0,
            c * size >= n,
            c > 0 ==> (c - 1) * size < n,
    ;
}

/// A takeaway dish of the raw shop data, without its price.
#[derive(Debug, Clone)]
pub struct RawTakeaway {
    pub name: String,
    pub picture: String,
}

/// A shop to store: its station, its name and its dishes; `source_station`
/// and `source_shop` give its position in the raw data.
#[derive(Debug, Clone)]
pub struct PlannedShop {
    pub station_id: u64,
    pub name: String,
    pub dishes: Vec<RawTakeaway>,
    pub source_station: usize,
    pub source_shop: usize,
}

/// The pictures of the takeaway dishes, in order, with repetitions.
pub open spec fn takeaway_pictures(dishes: Seq<RawTakeaway>) -> Seq<Seq<char>>
    decreases dishes.len(),
{
    if dishes.len() == 0 {
        Seq::empty()
    } else {
        takeaway_pictures(dishes.drop_last()).push(dishes.last().picture@)
    }
}

/// The pictures of the shops of one station, in order, with repetitions.
pub open spec fn shop_pictures(shops: Seq<(String, Vec<RawTakeaway>)>) -> Seq<Seq<char>>
    decreases shops.len(),
{
    if shops.len() == 0 {
        Seq::empty()
    } else {
        shop_pictures(shops.drop_last()) + takeaway_pictures(shops.last().1@)
    }
}

/// The pictures of all stations, in order, with repetitions.
pub open spec fn station_pictures(data: Seq<(String, Vec<(String, Vec<RawTakeaway>)>)>) -> Seq<Seq<char>>
    decreases data.len(),
{
    if data.len() == 0 {
        Seq::empty()
    } else {
        station_pictures(data.drop_last()) + shop_pictures(data.last().1@)
    }
}

/// The first station, in order, whose name is unknown, if any.
pub open spec fn first_unknown_station(stations: Seq<(String, u64)>, data: Seq<(String, Vec<(String, Vec<RawTakeaway>)>)>) -> Option<
    Seq<char>,
>
    decreases data.len(),
{
    if data.len() == 0 {
        None
    } else {
        match first_unknown_station(stations, data.drop_last()) {
            Some(n) => Some(n),
            None => if id_named(stations, data.last().0@) is None {
                Some(data.last().0@)
            } else {
                None
            },
        }
    }
}

/// The positions (station, shop) of all shops of the raw data: station by
/// station, shop by shop, each position once.
pub open spec fn shop_keys(data: Seq<(String, Vec<(String, Vec<RawTakeaway>)>)>) -> Seq<(int, int)>
    decreases data.len(),
{
    if data.len() == 0 {
        Seq::empty()
    } else {
        shop_keys(data.drop_last()) + Seq::new(data.last().1@.len(), |s: int| (data.len() - 1, s))
    }
}

/// `p` is shop `s` of station `g`: that station's id, the shop's name and
/// its dishes with their names and pictures, in order.
pub open spec fn shop_is(
    p: PlannedShop,
    key: (int, int),
    stations: Seq<(String, u64)>,
    data: Seq<(String, Vec<(String, Vec<RawTakeaway>)>)>,
) -> bool {
    let (g, s) = key;
    let raw = data[g].1@[s];
    &&& p.source_station == g
    &&& p.source_shop == s
    &&& Some(p.station_id) == id_named(stations, data[g].0@)
    &&& p.name@ == raw.0@
    &&& p.dishes@.len() == raw.1@.len()
    &&& forall|t: int|
        0 <= t < p.dishes@.len() ==> (#[trigger] p.dishes@[t]).name@ == raw.1@[t].name@ && p.dishes@[t].picture@
            == raw.1@[t].picture@
}

/// Shop `k` is the shop at the `k`-th position of `keys`, one shop per position.
pub open spec fn shops_follow(
    shops: Seq<PlannedShop>,
    keys: Seq<(int, int)>,
    stations: Seq<(String, u64)>,
    data: Seq<(String, Vec<(String, Vec<RawTakeaway>)>)>,
) -> bool {
    &&& shops.len() == keys.len()
    &&& forall|k: int| 0 <= k < shops.len() ==> shop_is(#[trigger] shops[k], keys[k], stations, data)
}

proof fn lemma_unknown_station_prefix(
    stations: Seq<(String, u64)>,
    data: Seq<(String, Vec<(String, Vec<RawTakeaway>)>)>,
    n: int,
)
    requires
        0 <= n <= data.len(),
        first_unknown_station(stations, data.take(n)) is Some,
    ensures
        first_unknown_station(stations, data) == first_unknown_station(stations, data.take(n)),
    decreases data.len(),
{
    if data.len() > n {
        assert(data.drop_last().take(n) =~= data.take(n));
        lemma_unknown_station_prefix(stations, data.drop_last(), n);
    } else {
        assert(data.take(n) =~= data);
    }
}

fn copy_dishes(
    pics: &mut Vec<String>,
    Ghost(before): Ghost<Seq<Seq<char>>>,
    dishes: &Vec<RawTakeaway>,
) -> (out: Vec<RawTakeaway>)
    requires
        texts(old(pics)@) == dedup(before),
    ensures
        texts(final(pics)@) == dedup(before + takeaway_pictures(dishes@)),
        out@.len() == dishes@.len(),
        forall|t: int|
            0 <= t < out@.len() ==> (#[trigger] out@[t]).name@ == dishes@[t].name@ && out@[t].picture@
                == dishes@[t].picture@,
{
    let mut out: Vec<RawTakeaway> = Vec::new();
    let mut t: usize = 0;
    while t < dishes.len()
        invariant
            t <= dishes@.len(),
            texts(pics@) == dedup(before + takeaway_pictures(dishes@.take(t as int))),
            out@.len() == t,
            forall|u: int|
                0 <= u < t ==> (#[trigger] out@[u]).name@ == dishes@[u].name@ && out@[u].picture@
                    == dishes@[u].picture@,
        decreases dishes@.len() - t,
    {
        let x = &dishes[t];
        proof {
            assert(dishes@.take(t + 1).drop_last() =~= dishes@.take(t as int));
            assert(dishes@.take(t + 1).last() == dishes@[t as int]);
            assert(before + takeaway_pictures(dishes@.take(t + 1)) =~= (before + takeaway_pictures(
                dishes@.take(t as int),
            )).push(x.picture@));
            crate::train_schedule::lemma_dedup_push(
                before + takeaway_pictures(dishes@.take(t as int)),
                x.picture@,
            );
        }
        let ghost p0 = pics@;
        if !contains_text(pics, &x.picture) {
            pics.push(x.picture.clone());
            proof {
                assert(texts(pics@) =~= texts(p0).push(x.picture@));
            }
        } else {
            proof {
                let k = choose|k: int| 0 <= k < p0.len() && p0[k]@ == x.picture@;
                assert(texts(p0)[k] == x.picture@);
            }
        }
        out.push(RawTakeaway { name: x.name.clone(), picture: x.picture.clone() });
        t += 1;
    }
    proof {
        assert(dishes@.take(t as int) =~= dishes@);
    }
    out
}

/// Plans the loading of raw takeaway data, given the stations known by
/// name: the pictures to upload (each once, in order of first use) and the
/// shops to store, in order; refused at the first station name that is not
/// known.
pub fn plan_takeaway_shops(
    stations: &Vec<(String, u64)>,
    data: &Vec<(String, Vec<(String, Vec<RawTakeaway>)>)>,
) -> (r: Result<(Vec<String>, Vec<PlannedShop>), RawDataError>)
    ensures
        match first_unknown_station(stations@, data@) {
            Some(n) => r matches Err(RawDataError::UnknownStation(s)) && s@ == n,
            None => r matches Ok((pics, shops)) && texts(pics@) == dedup(station_pictures(data@))
                && shops_follow(shops@, shop_keys(data@), stations@, data@),
        },
{
    let mut pics: Vec<String> = Vec::new();
    let mut shops: Vec<PlannedShop> = Vec::new();
    let mut g: usize = 0;
    while g < data.len()
        invariant
            g <= data@.len(),
            first_unknown_station(stations@, data@.take(g as int)) is None,
            texts(pics@) == dedup(station_pictures(data@.take(g as int))),
            shops_follow(shops@, shop_keys(data@.take(g as int)), stations@, data@),
        decreases data@.len() - g,
    {
        proof {
            assert(data@.take(g + 1).drop_last() =~= data@.take(g as int));
            assert(data@.take(g + 1).last() == data@[g as int]);
        }
        let station_id = match find_id(stations, &data[g].0) {
            Some(id) => id,
            None => {
                proof {
                    lemma_unknown_station_prefix(stations@, data@, g + 1);
                }
                return Err(RawDataError::UnknownStation(data[g].0.clone()));
            },
        };
        let station_shops = &data[g].1;
        let ghost before = station_pictures(data@.take(g as int));
        let ghost before_keys = shop_keys(data@.take(g as int));
        let mut s: usize = 0;
        while s < station_shops.len()
            invariant
                g < data@.len(),
                station_shops@ == data@[g as int].1@,
                Some(station_id) == id_named(stations@, data@[g as int].0@),
                s <= station_shops@.len(),
                texts(pics@) == dedup(before + shop_pictures(station_shops@.take(s as int))),
                shops_follow(
                    shops@,
                    before_keys + Seq::new(s as nat, |j: int| (g as int, j)),
                    stations@,
                    data@,
                ),
            decreases station_shops@.len() - s,
        {
            proof {
                assert(station_shops@.take(s + 1).drop_last() =~= station_shops@.take(s as int));
                assert(station_shops@.take(s + 1).last() == station_shops@[s as int]);
                assert(before + shop_pictures(station_shops@.take(s + 1)) =~= (before + shop_pictures(
                    station_shops@.take(s as int),
                )) + takeaway_pictures(station_shops@[s as int].1@));
            }
            let dishes = copy_dishes(
                &mut pics,
                Ghost(before + shop_pictures(station_shops@.take(s as int))),
                &station_shops[s].1,
            );
            let shop = PlannedShop {
                station_id,
                name: station_shops[s].0.clone(),
                dishes,
                source_station: g,
                source_shop: s,
            };
            shops.push(shop);
            proof {
                let keys = before_keys + Seq::new((s + 1) as nat, |j: int| (g as int, j));
                assert(keys =~= (before_keys + Seq::new(s as nat, |j: int| (g as int, j))).push((g as int, s as int)));
                assert forall|k: int| 0 <= k < shops@.len() implies shop_is(
                    #[trigger] shops@[k],
                    keys[k],
                    stations@,
                    data@,
                ) by {
                    if k < shops@.len() - 1 {
                        assert(shops@[k] == shops@.drop_last()[k]);
                    }
                }
            }
            s += 1;
        }
        proof {
            assert(station_shops@.take(s as int) =~= station_shops@);
            assert(station_pictures(data@.take(g + 1)) == before + shop_pictures(station_shops@));
            assert(shop_keys(data@.take(g + 1)) =~= before_keys + Seq::new(s as nat, |j: int| (g as int, j)));
        }
        g += 1;
    }
    proof {
        assert(data@.take(g as int) =~= data@);
    }
    Ok((pics, shops))
}

} // verus!
