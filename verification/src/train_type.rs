//! Train types: checking names against the known ones, and the seat
//! configuration of a train.
use std::sync::Arc;
use vstd::prelude::*;

use crate::domain::RepositoryError;
use crate::geo::{group_keys, group_values};
use crate::money::Amount;

verus! {

/// Errors of the train type service.
#[derive(Debug, Clone, PartialEq, Eq)]
pub enum TrainTypeConfigurationServiceError {
    InfrastructureError(RepositoryError),
    InvalidSeatType(u64, String),
    InvalidTrainNumber(String),
    InvalidTrainType(String),
    NoSuchTrainId(u64),
}

/// A kind of seat of a train.
#[derive(Debug, Clone)]
pub struct SeatType {
    pub id: Option<u64>,
    pub name: String,
    pub capacity: u32,
    pub price: Amount,
}

/// A train as configured: its number, its type, its seats by seat type
/// name, and the defaults of its daily schedule.
#[derive(Debug)]
pub struct TrainConfiguration {
    pub id: Option<u64>,
    pub train_number: String,
    pub train_type: String,
    pub seats: Vec<(String, SeatType)>,
    pub default_route_id: u64,
    pub default_origin_departure_time: i32,
}

/// `name` is one of `known`.
pub open spec fn is_known(known: Seq<String>, name: Seq<char>) -> bool {
    exists|k: int| 0 <= k < known.len() && known[k]@ == name
}

fn contains_name(known: &Vec<String>, name: &String) -> (b: bool)
    ensures
        b == is_known(known@, name@),
{
    let mut k: usize = 0;
    while k < known.len()
        invariant
            k <= known@.len(),
            forall|t: int| 0 <= t < k ==> known@[t]@ != name@,
        decreases known@.len() - k,
    {
        if known[k] == *name {
            return true;
        }
        k += 1;
    }
    false
}

/// Each seat type keyed by its name.
pub open spec fn seat_pairs(seats: Seq<SeatType>) -> Seq<(String, SeatType)>
    decreases seats.len(),
{
    if seats.len() == 0 {
        Seq::empty()
    } else {
        seat_pairs(seats.drop_last()).push((seats.last().name, seats.last()))
    }
}

/// The seat map of a configuration: one entry per seat type name, in order
/// of first appearance, holding the last seat type of that name.
pub open spec fn seat_map_of(r: Seq<(String, SeatType)>, seats: Seq<SeatType>) -> bool {
    let pairs = seat_pairs(seats);
    &&& r.len() == group_keys(pairs).len()
    &&& forall|i: int|
        0 <= i < r.len() ==> (#[trigger] r[i]).0@ == group_keys(pairs)[i] && r[i].1 == group_values(
            pairs,
            group_keys(pairs)[i],
        ).last()
}

/// The train type service; the repository is reached by the caller.
pub struct TrainTypeConfigurationServiceImpl<R> {
    pub train_repository: Arc<R>,
}

impl<R> TrainTypeConfigurationServiceImpl<R> {
    /// A service over the train repository.
    pub fn new(train_repository: Arc<R>) -> (s: Self)
        ensures
            s.train_repository == train_repository,
    {
        Self { train_repository }
    }

    /// A seat type name is accepted when it is one of the train's seat types.
    pub fn verify_seat_type_name(&self, train_id: u64, seat_type_name: String, known: &Vec<String>) -> (r:
        Result<String, TrainTypeConfigurationServiceError>)
        ensures
            is_known(known@, seat_type_name@) ==> (r matches Ok(n) && n@ == seat_type_name@),
            !is_known(known@, seat_type_name@) ==> (r matches Err(
                TrainTypeConfigurationServiceError::InvalidSeatType(id, n),
            ) && id == train_id && n@ == seat_type_name@),
    {
        if contains_name(known, &seat_type_name) {
            Ok(seat_type_name)
        } else {
            Err(TrainTypeConfigurationServiceError::InvalidSeatType(train_id, seat_type_name))
        }
    }

    /// A train number is accepted when it is one of the known numbers.
    pub fn verify_train_number(&self, train_number: String, known: &Vec<String>) -> (r: Result<
        String,
        TrainTypeConfigurationServiceError,
    >)
        ensures
            is_known(known@, train_number@) ==> (r matches Ok(n) && n@ == train_number@),
            !is_known(known@, train_number@) ==> (r matches Err(
                TrainTypeConfigurationServiceError::InvalidTrainNumber(n),
            ) && n@ == train_number@),
    {
        if contains_name(known, &train_number) {
            Ok(train_number)
        } else {
            Err(TrainTypeConfigurationServiceError::InvalidTrainNumber(train_number))
        }
    }

    /// A train type is accepted when it is one of the known types.
    pub fn verify_train_type(&self, train_type: String, known: &Vec<String>) -> (r: Result<
        String,
        TrainTypeConfigurationServiceError,
    >)
        ensures
            is_known(known@, train_type@) ==> (r matches Ok(n) && n@ == train_type@),
            !is_known(known@, train_type@) ==> (r matches Err(
                TrainTypeConfigurationServiceError::InvalidTrainType(n),
            ) && n@ == train_type@),
    {
        if contains_name(known, &train_type) {
            Ok(train_type)
        } else {
            Err(TrainTypeConfigurationServiceError::InvalidTrainType(train_type))
        }
    }

    /// The configuration of a new train (no id yet), its seats keyed by seat
    /// type name, the last seat type of a name winning.
    pub fn train_configuration(
        &self,
        train_number: String,
        train_type: String,
        seat_configuration: Vec<SeatType>,
        default_route_id: u64,
        default_origin_departure_time: i32,
    ) -> (t: TrainConfiguration)
        ensures
            t.id is None,
            t.train_number@ == train_number@,
            t.train_type@ == train_type@,
            seat_map_of(t.seats@, seat_configuration@),
            t.default_route_id == default_route_id,
            t.default_origin_departure_time == default_origin_departure_time,
    {
        let seats = seat_map(seat_configuration);
        TrainConfiguration {
            id: None,
            train_number,
            train_type,
            seats,
            default_route_id,
            default_origin_departure_time,
        }
    }
}

fn find_seat_name(r: &Vec<(String, SeatType)>, k: &String) -> (res: Option<usize>)
    ensures
        match res {
            Some(j) => j < r@.len() && r@[j as int].0@ == k@,
            None => forall|j: int| 0 <= j < r@.len() ==> r@[j].0@ != k@,
        },
{
    let mut j: usize = 0;
    while j < r.len()
        invariant
            j <= r@.len(),
            forall|t: int| 0 <= t < j ==> r@[t].0@ != k@,
        decreases r@.len() - j,
    {
        if r[j].0 == *k {
            return Some(j);
        }
        j += 1;
    }
    None
}

proof fn lemma_keys_distinct(items: Seq<(String, SeatType)>)
    ensures
        forall|a: int, b: int|
            0 <= a < b < group_keys(items).len() ==> group_keys(items)[a] != group_keys(items)[b],
    decreases items.len(),
{
    if items.len() > 0 {
        lemma_keys_distinct(items.drop_last());
        let prev = group_keys(items.drop_last());
        if !prev.contains(items.last().0@) {
            assert forall|a: int| 0 <= a < prev.len() implies prev[a] != items.last().0@ by {
                if prev[a] == items.last().0@ {
                    assert(prev.contains(items.last().0@));
                }
            }
        }
    }
}

/// The seat types keyed by name, the last of a name winning, names in order
/// of first appearance.
fn seat_map(seat_configuration: Vec<SeatType>) -> (r: Vec<(String, SeatType)>)
    ensures
        seat_map_of(r@, seat_configuration@),
{
    let ghost all = seat_configuration@;
    let total = seat_configuration.len();
    assert(all.len() == total);
    let mut seats = seat_configuration;
    let mut r: Vec<(String, SeatType)> = Vec::new();
    let mut n: usize = 0;
    while seats.len() > 0
        invariant
            n + seats@.len() == all.len(),
            all.len() <= usize::MAX,
            seats@ == all.skip(n as int),
            seat_map_of(r@, all.take(n as int)),
        decreases seats@.len(),
    {
        let ghost pre = seat_pairs(all.take(n as int));
        let ghost cur = seat_pairs(all.take(n + 1));
        let ghost r0 = r@;
        proof {
            assert(all.take(n + 1).drop_last() =~= all.take(n as int));
            assert(all.take(n + 1).last() == all[n as int]);
            assert(cur == pre.push((all[n as int].name, all[n as int])));
            assert(seats@[0] == all[n as int]);
        }
        let s = seats.remove(0);
        proof {
            assert(seats@ =~= all.skip(n + 1));
        }
        let name = s.name.clone();
        proof {
            assert(cur.drop_last() =~= pre);
            assert(cur.last().0@ == name@);
            assert(cur.last().1 == s);
        }
        match find_seat_name(&r, &name) {
            Some(j) => {
                let _ = r.remove(j);
                r.insert(j, (name, s));
                proof {
                    assert(r0[j as int].0@ == group_keys(pre)[j as int]);
                    assert(group_keys(pre).contains(name@));
                    assert(group_keys(cur) == group_keys(pre));
                    lemma_keys_distinct(pre);
                    assert forall|i: int| 0 <= i < r@.len() implies (#[trigger] r@[i]).0@ == group_keys(cur)[i]
                        && r@[i].1 == group_values(cur, group_keys(cur)[i]).last() by {
                        if i != j {
                            assert(r@[i] == r0[i]);
                            assert(r0[i].0@ == group_keys(pre)[i]);
                            assert(group_keys(pre)[i] != group_keys(pre)[j as int]);
                        }
                    }
                }
            },
            None => {
                r.push((name, s));
                proof {
                    assert(!group_keys(pre).contains(name@)) by {
                        if group_keys(pre).contains(name@) {
                            let j = choose|j: int| 0 <= j < group_keys(pre).len() && group_keys(pre)[j] == name@;
                            assert(r0[j].0@ == group_keys(pre)[j]);
                        }
                    }
                    assert(group_keys(cur) == group_keys(pre).push(name@));
                    assert forall|i: int| 0 <= i < r@.len() implies (#[trigger] r@[i]).0@ == group_keys(cur)[i]
                        && r@[i].1 == group_values(cur, group_keys(cur)[i]).last() by {
                        if i < r0.len() {
                            assert(r@[i] == r0[i]);
                            assert(r0[i].0@ == group_keys(pre)[i]);
                            assert(group_keys(pre)[i] != name@) by {
                                assert(group_keys(pre).contains(group_keys(pre)[i]));
                            }
                        }
                    }
                }
            },
        }
        n += 1;
    }
    proof {
        assert(all.take(n as int) =~= all);
    }
    r
}

} // verus!
