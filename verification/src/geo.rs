//! Cities and stations: grouping them for display, and the checks made
//! when they are added or changed.
use std::sync::Arc;
use vstd::prelude::*;

use crate::domain::RepositoryError;

verus! {

/// A city of a province.
#[derive(Debug, Clone)]
pub struct City {
    pub id: Option<u64>,
    pub name: String,
    pub province: String,
}

/// A station of a city.
#[derive(Debug, Clone)]
pub struct Station {
    pub id: Option<u64>,
    pub name: String,
    pub city_id: u64,
}

/// Errors of the city service.
#[derive(Debug, Clone, PartialEq, Eq)]
pub enum GeoServiceError {
    InfrastructureError(RepositoryError),
    CityExists(String),
    InvalidCityName(String),
    NoSuchCityId(u64),
}

/// Errors of the station service.
#[derive(Debug, Clone, PartialEq, Eq)]
pub enum StationServiceError {
    InfrastructureError(RepositoryError),
    InvalidGeoInfo(GeoServiceError),
    NoSuchStationId(u64),
}

/// Errors of the internal geography service.
#[derive(Debug, Clone, PartialEq, Eq)]
pub enum GeoInternalServiceError {
    RelatedServiceError(String),
}

impl GeoInternalServiceError {
    /// The code reported to clients for this error.
    pub fn error_code(&self) -> (c: u32)
        ensures
            c == 91000,
    {
        match self {
            GeoInternalServiceError::RelatedServiceError(_) => 91000,
        }
    }
}

/// The distinct keys of the pairs, in order of first appearance.
pub open spec fn group_keys<V>(items: Seq<(String, V)>) -> Seq<Seq<char>>
    decreases items.len(),
{
    if items.len() == 0 {
        Seq::empty()
    } else {
        let prev = group_keys(items.drop_last());
        if prev.contains(items.last().0@) {
            prev
        } else {
            prev.push(items.last().0@)
        }
    }
}

/// The values of the pairs with key `k`, in order.
pub open spec fn group_values<V>(items: Seq<(String, V)>, k: Seq<char>) -> Seq<V>
    decreases items.len(),
{
    if items.len() == 0 {
        Seq::empty()
    } else if items.last().0@ == k {
        group_values(items.drop_last(), k).push(items.last().1)
    } else {
        group_values(items.drop_last(), k)
    }
}

/// `r` groups the pairs by key: one entry per distinct key, in order of
/// first appearance, with the values of that key in order.
pub open spec fn groups_of<V>(r: Seq<(String, Vec<V>)>, items: Seq<(String, V)>) -> bool {
    &&& r.len() == group_keys(items).len()
    &&& forall|i: int|
        0 <= i < r.len() ==> (#[trigger] r[i]).0@ == group_keys(items)[i] && r[i].1@ == group_values(
            items,
            group_keys(items)[i],
        )
}

proof fn lemma_group_values_absent<V>(items: Seq<(String, V)>, k: Seq<char>)
    requires
        !group_keys(items).contains(k),
    ensures
        group_values(items, k) == Seq::<V>::empty(),
    decreases items.len(),
{
    if items.len() > 0 {
        let prev = group_keys(items.drop_last());
        if prev.contains(items.last().0@) {
        } else {
            assert(group_keys(items)[prev.len() as int] == items.last().0@);
        }
        if prev.contains(k) {
            let j = choose|j: int| 0 <= j < prev.len() && prev[j] == k;
            assert(group_keys(items)[j] == k);
        }
        lemma_group_values_absent(items.drop_last(), k);
    }
}

fn find_key<V>(r: &Vec<(String, Vec<V>)>, k: &String) -> (res: Option<usize>)
    ensures
        match res {
            Some(j) => j < r@.len() && r@[j as int].0@ == k@,
            None => forall|j: int| 0 <= j < r@.len() ==> r@[j].0@ != k@,
        },
{
    let mut j: usize = 0;
    while j < r.len()
        invariant
            j <= r@.len(),
            forall|t: int| 0 <= t < j ==> r@[t].0@ != k@,
        decreases r@.len() - j,
    {
        if r[j].0 == *k {
            return Some(j);
        }
        j += 1;
    }
    None
}

/// Groups the pairs by key, keys in order of first appearance.
pub fn group_by_key<V>(items: Vec<(String, V)>) -> (r: Vec<(String, Vec<V>)>)
    ensures
        groups_of(r@, items@),
{
    let ghost all = items@;
    let total = items.len();
    assert(all.len() == total);
    let mut items = items;
    let mut r: Vec<(String, Vec<V>)> = Vec::new();
    let mut n: usize = 0;
    while items.len() > 0
        invariant
            n + items@.len() == all.len(),
            all.len() <= usize::MAX,
            items@ == all.skip(n as int),
            groups_of(r@, all.take(n as int)),
        decreases items@.len(),
    {
        let ghost pre = all.take(n as int);
        let ghost cur = all.take(n + 1);
        let ghost r0 = r@;
        proof {
            assert(cur.drop_last() =~= pre);
            assert(cur.last() == all[n as int]);
            assert(items@[0] == all[n as int]);
        }
        let (k, v) = items.remove(0);
        proof {
            assert(items@ =~= all.skip(n + 1));
        }
        match find_key(&r, &k) {
            Some(j) => {
                let mut entry = r.remove(j);
                entry.1.push(v);
                r.insert(j, entry);
                proof {
                    assert(group_keys(pre).contains(k@)) by {
                        assert(r0[j as int].0@ == group_keys(pre)[j as int]);
                    }
                    assert(group_keys(cur) == group_keys(pre));
                    assert forall|i: int| 0 <= i < r@.len() implies (#[trigger] r@[i]).0@ == group_keys(cur)[i]
                        && r@[i].1@ == group_values(cur, group_keys(cur)[i]) by {
                        if i != j {
                            assert(r@[i] == r0[i]);
                            assert(group_keys(pre)[i] != k@) by {
                                assert(r0[i].0@ == group_keys(pre)[i]);
                                assert(r0[j as int].0@ == group_keys(pre)[j as int]);
                                lemma_keys_distinct(pre);
                            }
                        }
                    }
                }
            },
            None => {
                let mut vals: Vec<V> = Vec::new();
                vals.push(v);
                r.push((k, vals));
                proof {
                    assert(!group_keys(pre).contains(k@)) by {
                        if group_keys(pre).contains(k@) {
                            let j = choose|j: int| 0 <= j < group_keys(pre).len() && group_keys(pre)[j] == k@;
                            assert(r0[j].0@ == group_keys(pre)[j]);
                        }
                    }
                    lemma_group_values_absent(pre, k@);
                    assert(group_keys(cur) == group_keys(pre).push(k@));
                    assert forall|i: int| 0 <= i < r@.len() implies (#[trigger] r@[i]).0@ == group_keys(cur)[i]
                        && r@[i].1@ == group_values(cur, group_keys(cur)[i]) by {
                        if i < r0.len() {
                            assert(r@[i] == r0[i]);
                            assert(r0[i].0@ == group_keys(pre)[i]);
                            assert(group_keys(pre)[i] != k@);
                        } else {
                            assert(r@[i].1@ =~= seq![all[n as int].1]);
                        }
                    }
                }
            },
        }
        n += 1;
    }
    proof {
        assert(all.take(n as int) =~= all);
    }
    r
}

proof fn lemma_keys_distinct<V>(items: Seq<(String, V)>)
    ensures
        forall|a: int, b: int|
            0 <= a < b < group_keys(items).len() ==> group_keys(items)[a] != group_keys(items)[b],
    decreases items.len(),
{
    if items.len() > 0 {
        lemma_keys_distinct(items.drop_last());
        let prev = group_keys(items.drop_last());
        if !prev.contains(items.last().0@) {
            assert forall|a: int| 0 <= a < prev.len() implies prev[a] != items.last().0@ by {
                if prev[a] == items.last().0@ {
                    assert(prev.contains(items.last().0@));
                }
            }
        }
    }
}

/// The city service; the repository is reached by the caller.
pub struct GeoServiceImpl<R> {
    pub city_repository: Arc<R>,
}

impl<R> GeoServiceImpl<R> {
    /// A service over the city repository.
    pub fn new(city_repository: Arc<R>) -> (s: Self)
        ensures
            s.city_repository == city_repository,
    {
        GeoServiceImpl { city_repository }
    }

    /// One representative city per province: the first city of each
    /// province, provinces in order of first appearance.
    pub fn get_city_map(&self, cities: Vec<City>) -> (r: Vec<(String, Vec<City>)>)
        ensures
            r@.len() == first_cities(cities@).len(),
            forall|i: int|
                0 <= i < r@.len() ==> (#[trigger] r@[i]).0@ == first_cities(cities@)[i].0 && r@[i].1@ == seq![
                    first_cities(cities@)[i].1,
                ],
    {
        let ghost all = cities@;
        let total = cities.len();
        assert(all.len() == total);
        let mut cities = cities;
        let mut r: Vec<(String, Vec<City>)> = Vec::new();
        let mut n: usize = 0;
        while cities.len() > 0
            invariant
                n + cities@.len() == all.len(),
                all.len() <= usize::MAX,
                cities@ == all.skip(n as int),
                r@.len() == first_cities(all.take(n as int)).len(),
                forall|i: int|
                    0 <= i < r@.len() ==> (#[trigger] r@[i]).0@ == first_cities(all.take(n as int))[i].0
                        && r@[i].1@ == seq![first_cities(all.take(n as int))[i].1],
            decreases cities@.len(),
        {
            let ghost prev = first_cities(all.take(n as int));
            proof {
                assert(all.take(n + 1).drop_last() =~= all.take(n as int));
                assert(all.take(n + 1).last() == all[n as int]);
                assert(cities@[0] == all[n as int]);
            }
            let c = cities.remove(0);
            proof {
                assert(cities@ =~= all.skip(n + 1));
            }
            match find_key(&r, &c.province) {
                Some(j) => {
                    proof {
                        assert(prev[j as int].0 == c.province@);
                    }
                },
                None => {
                    proof {
                        assert forall|i: int| 0 <= i < prev.len() implies prev[i].0 != c.province@ by {
                            assert(r@[i].0@ == prev[i].0);
                        }
                    }
                    let p = c.province.clone();
                    let mut v: Vec<City> = Vec::new();
                    v.push(c);
                    r.push((p, v));
                    proof {
                        assert(v@ =~= seq![all[n as int]]);
                    }
                },
            }
            n += 1;
        }
        proof {
            assert(all.take(n as int) =~= all);
        }
        r
    }

    /// The city found by name: the first of those found, if any.
    pub fn get_city_by_name(&self, found: Vec<City>) -> (r: Option<City>)
        ensures
            found@.len() == 0 ==> r is None,
            found@.len() > 0 ==> r == Some(found@[0]),
    {
        let mut found = found;
        if found.len() == 0 {
            None
        } else {
            Some(found.remove(0))
        }
    }

    /// A new city is refused when a city of that name exists.
    pub fn check_add_city(&self, city: &City, same_name: &Vec<City>) -> (r: Result<(), GeoServiceError>)
        ensures
            same_name@.len() > 0 ==> (r matches Err(GeoServiceError::CityExists(n)) && n@ == city.name@),
            same_name@.len() == 0 ==> r is Ok,
    {
        if same_name.len() > 0 {
            Err(GeoServiceError::CityExists(city.name.clone()))
        } else {
            Ok(())
        }
    }

    /// The city to store when city `city_id` is changed: the city found
    /// under that id, with the new name and province; `NoSuchCityId` when
    /// none was found.
    pub fn modify_city(&self, city_id: u64, found: Option<City>, city_name: String, province: String) -> (r:
        Result<City, GeoServiceError>)
        ensures
            match found {
                None => r == Err::<City, _>(GeoServiceError::NoSuchCityId(city_id)),
                Some(c) => r matches Ok(n) && n.id == c.id && n.name@ == city_name@ && n.province@ == province@,
            },
    {
        match found {
            None => Err(GeoServiceError::NoSuchCityId(city_id)),
            Some(c) => Ok(City { id: c.id, name: city_name, province }),
        }
    }
}

/// The first city of each province, keyed by province name, provinces in
/// order of first appearance.
pub open spec fn first_cities(cities: Seq<City>) -> Seq<(Seq<char>, City)>
    decreases cities.len(),
{
    if cities.len() == 0 {
        Seq::empty()
    } else {
        let prev = first_cities(cities.drop_last());
        let c = cities.last();
        if exists|i: int| 0 <= i < prev.len() && (#[trigger] prev[i]).0 == c.province@ {
            prev
        } else {
            prev.push((c.province@, c))
        }
    }
}

/// Each city name keyed by its province, as the internal service lists them.
pub open spec fn city_name_pairs(cities: Seq<City>) -> Seq<(String, String)>
    decreases cities.len(),
{
    if cities.len() == 0 {
        Seq::empty()
    } else {
        city_name_pairs(cities.drop_last()).push((cities.last().province, cities.last().name))
    }
}

/// The names of the cities of each province, provinces in order of first appearance.
pub fn get_city_info_list(cities: &Vec<City>) -> (r: Vec<(String, Vec<String>)>)
    ensures
        groups_of(r@, city_name_pairs(cities@)),
{
    let mut pairs: Vec<(String, String)> = Vec::new();
    let mut i: usize = 0;
    while i < cities.len()
        invariant
            i <= cities@.len(),
            pairs@ == city_name_pairs(cities@.take(i as int)),
        decreases cities@.len() - i,
    {
        proof {
            assert(cities@.take(i + 1).drop_last() =~= cities@.take(i as int));
            assert(cities@.take(i + 1).last() == cities@[i as int]);
        }
        pairs.push((cities[i].province.clone(), cities[i].name.clone()));
        i += 1;
    }
    proof {
        assert(cities@.take(i as int) =~= cities@);
    }
    group_by_key(pairs)
}

/// The name of the last city with id `id`, or the empty name when there is none.
pub open spec fn city_name_of(cities: Seq<City>, id: u64) -> Seq<char>
    decreases cities.len(),
{
    if cities.len() == 0 {
        Seq::empty()
    } else if cities.last().id == Some(id) {
        cities.last().name@
    } else {
        city_name_of(cities.drop_last(), id)
    }
}

/// Each station name keyed by the name of its city.
pub open spec fn station_name_pairs_ok(pairs: Seq<(String, String)>, stations: Seq<Station>, cities: Seq<City>) -> bool {
    &&& pairs.len() == stations.len()
    &&& forall|k: int|
        0 <= k < pairs.len() ==> (#[trigger] pairs[k]).0@ == city_name_of(cities, stations[k].city_id)
            && pairs[k].1@ == stations[k].name@
}

fn city_name(cities: &Vec<City>, id: u64) -> (s: String)
    ensures
        s@ == city_name_of(cities@, id),
{
    let mut k: usize = cities.len();
    assert(cities@.take(k as int) =~= cities@);
    while k > 0
        invariant
            k <= cities@.len(),
            city_name_of(cities@, id) == city_name_of(cities@.take(k as int), id),
        decreases k,
    {
        proof {
            assert(cities@.take(k as int).drop_last() =~= cities@.take(k - 1));
            assert(cities@.take(k as int).last() == cities@[k - 1]);
        }
        if cities[k - 1].id == Some(id) {
            return cities[k - 1].name.clone();
        }
        k -= 1;
    }
    proof {
        assert(cities@.take(0) =~= Seq::<City>::empty());
    }
    String::new()
}

/// The names of the stations of each city, cities named by their id (the
/// empty name for an unknown city) and listed in order of first appearance.
pub fn get_city_station_info(stations: &Vec<Station>, cities: &Vec<City>) -> (r: Vec<(String, Vec<String>)>)
    ensures
        exists|pairs: Seq<(String, String)>|
            station_name_pairs_ok(pairs, stations@, cities@) && groups_of(r@, pairs),
{
    let mut pairs: Vec<(String, String)> = Vec::new();
    let mut i: usize = 0;
    while i < stations.len()
        invariant
            i <= stations@.len(),
            station_name_pairs_ok(pairs@, stations@.take(i as int), cities@),
        decreases stations@.len() - i,
    {
        let name = city_name(cities, stations[i].city_id);
        pairs.push((name, stations[i].name.clone()));
        proof {
            assert forall|k: int| 0 <= k < pairs@.len() implies (#[trigger] pairs@[k]).0@ == city_name_of(
                cities@,
                stations@.take(i + 1)[k].city_id,
            ) && pairs@[k].1@ == stations@.take(i + 1)[k].name@ by {
                if k < i {
                    assert(stations@.take(i + 1)[k] == stations@.take(i as int)[k]);
                }
            }
        }
        i += 1;
    }
    proof {
        assert(stations@.take(i as int) =~= stations@);
    }
    let ghost p = pairs@;
    let r = group_by_key(pairs);
    assert(station_name_pairs_ok(p, stations@, cities@) && groups_of(r@, p));
    r
}

/// The station service; the repository and the city service are reached by
/// the caller.
pub struct StationServiceImpl<R, C> {
    pub station_repository: Arc<R>,
    pub geo_service: Arc<C>,
}

impl<R, C> StationServiceImpl<R, C> {
    /// A service over the station repository and the city service.
    pub fn new(station_repository: Arc<R>, geo_service: Arc<C>) -> (s: Self)
        ensures
            s.station_repository == station_repository,
            s.geo_service == geo_service,
    {
        StationServiceImpl { station_repository, geo_service }
    }

    /// The station to store for a new station in the city found by name;
    /// refused when no city of that name was found.
    pub fn add_station(&self, station_name: String, city_name: String, city: Option<City>) -> (r: Result<
        Station,
        StationServiceError,
    >)
        requires
            city matches Some(c) ==> c.id is Some,
        ensures
            match city {
                None => r matches Err(StationServiceError::InvalidGeoInfo(GeoServiceError::InvalidCityName(n)))
                    && n@ == city_name@,
                Some(c) => r matches Ok(s) && s.id is None && s.name@ == station_name@ && Some(s.city_id) == c.id,
            },
    {
        match city {
            None => Err(StationServiceError::InvalidGeoInfo(GeoServiceError::InvalidCityName(city_name))),
            Some(c) => {
                let city_id = match c.id {
                    Some(id) => id,
                    None => 0,
                };
                Ok(Station { id: None, name: station_name, city_id })
            },
        }
    }

    /// The station to store when station `station_id` is changed, given the
    /// city found by the new city name and whether the station exists.
    pub fn modify_station(
        &self,
        station_id: u64,
        station_name: String,
        city_name: String,
        city: Option<City>,
        station_exists: bool,
    ) -> (r: Result<Station, StationServiceError>)
        requires
            city matches Some(c) ==> c.id is Some,
        ensures
            match city {
                None => r matches Err(StationServiceError::InvalidGeoInfo(GeoServiceError::InvalidCityName(n)))
                    && n@ == city_name@,
                Some(c) => if station_exists {
                    r matches Ok(s) && s.id == Some(station_id) && s.name@ == station_name@ && Some(s.city_id)
                        == c.id
                } else {
                    r == Err::<Station, _>(StationServiceError::NoSuchStationId(station_id))
                },
            },
    {
        match city {
            None => Err(StationServiceError::InvalidGeoInfo(GeoServiceError::InvalidCityName(city_name))),
            Some(c) => {
                if station_exists {
                    let city_id = match c.id {
                        Some(id) => id,
                        None => 0,
                    };
                    Ok(Station { id: Some(station_id), name: station_name, city_id })
                } else {
                    Err(StationServiceError::NoSuchStationId(station_id))
                }
            },
        }
    }

    /// Every pair of a station of the first city and a station of the second,
    /// by station id, the first city's stations in the outer order.
    pub fn station_pairs_by_city(&self, from_list: &Vec<Station>, to_list: &Vec<Station>) -> (r: Vec<(u64, u64)>)
        requires
            forall|k: int| 0 <= k < from_list@.len() ==> (#[trigger] from_list@[k]).id is Some,
            forall|k: int| 0 <= k < to_list@.len() ==> (#[trigger] to_list@[k]).id is Some,
            from_list@.len() * to_list@.len() <= usize::MAX,
        ensures
            r@.len() == from_list@.len() * to_list@.len(),
            forall|a: int, b: int|
                0 <= a < from_list@.len() && 0 <= b < to_list@.len() ==> #[trigger] r@[a * to_list@.len() + b]
                    == (from_list@[a].id->0, to_list@[b].id->0),
    {
        let mut r: Vec<(u64, u64)> = Vec::new();
        let m = to_list.len();
        let mut a: usize = 0;
        while a < from_list.len()
            invariant
                m == to_list@.len(),
                a <= from_list@.len(),
                forall|k: int| 0 <= k < from_list@.len() ==> (#[trigger] from_list@[k]).id is Some,
                forall|k: int| 0 <= k < to_list@.len() ==> (#[trigger] to_list@[k]).id is Some,
                r@.len() == a * m,
                forall|x: int, y: int|
                    0 <= x < a && 0 <= y < m ==> #[trigger] r@[x * m + y] == (from_list@[x].id->0, to_list@[y].id->0),
            decreases from_list@.len() - a,
        {
            let f = match from_list[a].id {
                Some(id) => id,
                None => 0,
            };
            let mut b: usize = 0;
            let ghost r0 = r@;
            proof {
                assert(a * m + m == (a + 1) * m) by (nonlinear_arith);
            }
            while b < m
                invariant
                    m == to_list@.len(),
                    a < from_list@.len(),
                    f == from_list@[a as int].id->0,
                    forall|k: int| 0 <= k < to_list@.len() ==> (#[trigger] to_list@[k]).id is Some,
                    r@.len() == a * m + b,
                    b <= m,
                    r0.len() == a * m,
                    forall|k: int| 0 <= k < r0.len() ==> r@[k] == r0[k],
                    forall|y: int| 0 <= y < b ==> #[trigger] r@[a * m + y] == (f, to_list@[y].id->0),
                decreases m - b,
            {
                let t = match to_list[b].id {
                    Some(id) => id,
                    None => 0,
                };
                r.push((f, t));
                b += 1;
            }
            proof {
                assert forall|x: int, y: int|
                    0 <= x < a + 1 && 0 <= y < m implies #[trigger] r@[x * m + y] == (
                    from_list@[x].id->0,
                    to_list@[y].id->0,
                ) by {
                    if x < a {
                        assert(x * m + y < a * m) by (nonlinear_arith)
                            requires
                                x < a,
                                y < m,
                        ;
                        assert(r@[x * m + y] == r0[x * m + y]);
                    }
                }
            }
            a += 1;
        }
        r
    }
}

/// The geography views offered to clients: cities by province, stations by city.
pub trait GeoApplicationService {
    /// The names of the cities of each province.
    fn get_city_info(&self, cities: &Vec<City>) -> (r: Vec<(String, Vec<String>)>)
        ensures
            groups_of(r@, city_name_pairs(cities@)),
    ;

    /// The names of the stations of each city.
    fn get_city_station_info(&self, stations: &Vec<Station>, cities: &Vec<City>) -> (r: Vec<
        (String, Vec<String>),
    >)
        ensures
            exists|pairs: Seq<(String, String)>|
                station_name_pairs_ok(pairs, stations@, cities@) && groups_of(r@, pairs),
    ;
}

/// The geography views, computed from the cities and stations that the
/// caller loads.
pub struct GeoApplicationServiceImpl;

impl GeoApplicationService for GeoApplicationServiceImpl {
    fn get_city_info(&self, cities: &Vec<City>) -> (r: Vec<(String, Vec<String>)>) {
        get_city_info_list(cities)
    }

    fn get_city_station_info(&self, stations: &Vec<Station>, cities: &Vec<City>) -> (r: Vec<
        (String, Vec<String>),
    >) {
        get_city_station_info(stations, cities)
    }
}

} // verus!
