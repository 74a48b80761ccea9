//! Meals on trains: checking dish and takeaway order requests against the
//! menu of the train and the shops along its route.
use std::sync::Arc;
use vstd::prelude::*;

use crate::domain::{OrderStatus, OrderType};
use crate::money::Amount;
use crate::order::BaseOrder;
use crate::route::Stop;

verus! {

/// Errors of the train meal ordering service.
#[derive(Debug, Clone, PartialEq, Eq)]
pub enum TrainDishApplicationServiceError {
    InvalidDishName(String),
    InvalidAmount,
    InvalidTakeawayStation(String),
    InvalidTakeawayShopName(String),
    InvalidTakeawayName(String),
    NoRelatedTrainOrder,
}

impl TrainDishApplicationServiceError {
    /// The code reported to clients for this error.
    pub fn error_code(&self) -> (c: u32)
        ensures
            c == match self {
                TrainDishApplicationServiceError::InvalidDishName(_) => 22001u32,
                TrainDishApplicationServiceError::InvalidAmount => 22002u32,
                TrainDishApplicationServiceError::InvalidTakeawayStation(_) => 22003u32,
                TrainDishApplicationServiceError::InvalidTakeawayShopName(_) => 22004u32,
                TrainDishApplicationServiceError::InvalidTakeawayName(_) => 22005u32,
                TrainDishApplicationServiceError::NoRelatedTrainOrder => 22006u32,
            },
    {
        match self {
            TrainDishApplicationServiceError::InvalidDishName(_) => 22001,
            TrainDishApplicationServiceError::InvalidAmount => 22002,
            TrainDishApplicationServiceError::InvalidTakeawayStation(_) => 22003,
            TrainDishApplicationServiceError::InvalidTakeawayShopName(_) => 22004,
            TrainDishApplicationServiceError::InvalidTakeawayName(_) => 22005,
            TrainDishApplicationServiceError::NoRelatedTrainOrder => 22006,
        }
    }

    /// The message reported to clients for this error.
    pub fn error_message(&self) -> (m: String)
        ensures
            m@ == match self {
                TrainDishApplicationServiceError::InvalidDishName(s) => "Invalid dish name: "@ + s@,
                TrainDishApplicationServiceError::InvalidAmount => "Invalid dish name"@,
                TrainDishApplicationServiceError::InvalidTakeawayStation(s) => "Invalid takeaway station: "@
                    + s@,
                TrainDishApplicationServiceError::InvalidTakeawayShopName(s) => "Invalid takeaway shop name: "@
                    + s@,
                TrainDishApplicationServiceError::InvalidTakeawayName(s) => "Invalid takeaway name: "@ + s@,
                TrainDishApplicationServiceError::NoRelatedTrainOrder => "No related train order found"@,
            },
    {
        match self {
            TrainDishApplicationServiceError::InvalidDishName(s) => {
                let mut m = String::from_str("Invalid dish name: ");
                m.append(s.as_str());
                m
            },
            TrainDishApplicationServiceError::InvalidAmount => String::from_str("Invalid dish name"),
            TrainDishApplicationServiceError::InvalidTakeawayStation(s) => {
                let mut m = String::from_str("Invalid takeaway station: ");
                m.append(s.as_str());
                m
            },
            TrainDishApplicationServiceError::InvalidTakeawayShopName(s) => {
                let mut m = String::from_str("Invalid takeaway shop name: ");
                m.append(s.as_str());
                m
            },
            TrainDishApplicationServiceError::InvalidTakeawayName(s) => {
                let mut m = String::from_str("Invalid takeaway name: ");
                m.append(s.as_str());
                m
            },
            TrainDishApplicationServiceError::NoRelatedTrainOrder => String::from_str(
                "No related train order found",
            ),
        }
    }
}

/// Why a meal order request was refused.
#[derive(Debug, Clone, PartialEq, Eq)]
pub enum MealRequestError {
    Service(TrainDishApplicationServiceError),
    InvalidPersonalId(u128),
    ZeroAmount,
    InvalidDishTime,
    InvalidArrivalTime,
    InvalidDepartureTime,
}

/// Lunch or dinner.
#[derive(Debug, Clone, Copy, PartialEq, Eq)]
pub enum DishTime {
    Lunch,
    Dinner,
}

/// A dish on a train's menu.
#[derive(Debug, Clone)]
pub struct Dish {
    pub id: Option<u64>,
    pub name: String,
    pub unit_price: Amount,
}

/// A request for a dish; `dish_time` is `None` when the text given was not a meal time.
#[derive(Debug, Clone)]
pub struct DishOrderRequest {
    pub name: String,
    pub personal_id: u128,
    pub amount: i32,
    pub dish_time: Option<DishTime>,
}

/// A dish request checked against the menu and the passengers.
#[derive(Debug, Clone, Copy, PartialEq, Eq)]
pub struct VerifiedDishOrderRequest {
    pub dish_id: u64,
    pub personal_id: u64,
    pub train_id: u64,
    pub unit_price: Amount,
    pub amount: Amount,
    pub dish_time: DishTime,
    pub active_time: i64,
}

/// Index of the last dish named `name`, or -1: the menu keyed by name.
pub open spec fn dish_named(dishes: Seq<Dish>, name: Seq<char>) -> int
    decreases dishes.len(),
{
    if dishes.len() == 0 {
        -1
    } else if dishes.last().name@ == name {
        dishes.len() - 1
    } else {
        dish_named(dishes.drop_last(), name)
    }
}

proof fn lemma_dish_named(dishes: Seq<Dish>, name: Seq<char>)
    ensures
        -1 <= dish_named(dishes, name) < dishes.len(),
        dish_named(dishes, name) >= 0 ==> dishes[dish_named(dishes, name)].name@ == name,
    decreases dishes.len(),
{
    if dishes.len() > 0 {
        lemma_dish_named(dishes.drop_last(), name);
    }
}

/// Index of the last passenger entry for `id`, or -1: the passengers keyed by id.
pub open spec fn person_index(people: Seq<(u128, u64)>, id: u128) -> int
    decreases people.len(),
{
    if people.len() == 0 {
        -1
    } else if people.last().0 == id {
        people.len() - 1
    } else {
        person_index(people.drop_last(), id)
    }
}

proof fn lemma_person_index(people: Seq<(u128, u64)>, id: u128)
    ensures
        -1 <= person_index(people, id) < people.len(),
        person_index(people, id) >= 0 ==> people[person_index(people, id)].0 == id,
    decreases people.len(),
{
    if people.len() > 0 {
        lemma_person_index(people.drop_last(), id);
    }
}

fn find_dish(dishes: &Vec<Dish>, name: &String) -> (r: Option<usize>)
    ensures
        match r {
            Some(k) => k == dish_named(dishes@, name@),
            None => dish_named(dishes@, name@) == -1,
        },
{
    let mut k: usize = dishes.len();
    assert(dishes@.take(k as int) =~= dishes@);
    while k > 0
        invariant
            k <= dishes@.len(),
            dish_named(dishes@, name@) == dish_named(dishes@.take(k as int), name@),
        decreases k,
    {
        proof {
            assert(dishes@.take(k as int).drop_last() =~= dishes@.take(k - 1));
            assert(dishes@.take(k as int).last() == dishes@[k - 1]);
        }
        if dishes[k - 1].name == *name {
            return Some(k - 1);
        }
        k -= 1;
    }
    proof {
        assert(dishes@.take(0) =~= Seq::<Dish>::empty());
    }
    None
}

fn find_person(people: &Vec<(u128, u64)>, id: u128) -> (r: Option<usize>)
    ensures
        match r {
            Some(k) => k == person_index(people@, id),
            None => person_index(people@, id) == -1,
        },
{
    let mut k: usize = people.len();
    assert(people@.take(k as int) =~= people@);
    while k > 0
        invariant
            k <= people@.len(),
            person_index(people@, id) == person_index(people@.take(k as int), id),
        decreases k,
    {
        proof {
            assert(people@.take(k as int).drop_last() =~= people@.take(k - 1));
            assert(people@.take(k as int).last() == people@[k - 1]);
        }
        if people[k - 1].0 == id {
            return Some(k - 1);
        }
        k -= 1;
    }
    proof {
        assert(people@.take(0) =~= Seq::<(u128, u64)>::empty());
    }
    None
}

/// Seconds after the start of the day at which a meal is served: noon or 18:00.
pub open spec fn meal_offset(t: DishTime) -> int {
    match t {
        DishTime::Lunch => 43200int,
        DishTime::Dinner => 64800int,
    }
}

/// The check of one dish request: the dish must be on the menu, the
/// passenger known, the amount not zero and the meal time valid.
pub open spec fn dish_request_check(
    dishes: Seq<Dish>,
    people: Seq<(u128, u64)>,
    train_id: u64,
    day_start: i64,
    req: DishOrderRequest,
) -> Result<VerifiedDishOrderRequest, MealRequestError> {
    let d = dish_named(dishes, req.name@);
    let p = person_index(people, req.personal_id);
    if d < 0 {
        Err(MealRequestError::Service(TrainDishApplicationServiceError::InvalidDishName(req.name)))
    } else if p < 0 {
        Err(MealRequestError::InvalidPersonalId(req.personal_id))
    } else if req.amount == 0 {
        Err(MealRequestError::ZeroAmount)
    } else {
        match req.dish_time {
            None => Err(MealRequestError::InvalidDishTime),
            Some(t) => Ok(
                VerifiedDishOrderRequest {
                    dish_id: dishes[d].id->0,
                    personal_id: people[p].1,
                    train_id,
                    unit_price: dishes[d].unit_price,
                    amount: Amount { mantissa: req.amount as i128, scale: 0 },
                    dish_time: t,
                    active_time: (day_start + meal_offset(t)) as i64,
                },
            ),
        }
    }
}

/// The checked requests in order, or the error of the first request refused.
pub open spec fn dish_requests_check(
    dishes: Seq<Dish>,
    people: Seq<(u128, u64)>,
    train_id: u64,
    day_start: i64,
    reqs: Seq<DishOrderRequest>,
) -> Result<Seq<VerifiedDishOrderRequest>, MealRequestError>
    decreases reqs.len(),
{
    if reqs.len() == 0 {
        Ok(Seq::empty())
    } else {
        match dish_requests_check(dishes, people, train_id, day_start, reqs.drop_last()) {
            Err(e) => Err(e),
            Ok(v) => match dish_request_check(dishes, people, train_id, day_start, reqs.last()) {
                Err(e) => Err(e),
                Ok(x) => Ok(v.push(x)),
            },
        }
    }
}

/// `w` is a valid checked form of the request `req`: the dish is one of
/// the train's dishes with the requested name, with its id and price; the
/// passenger is one of the user's, known by the requested id; the amount is
/// the requested one and not zero; and the meal is the requested one,
/// active at noon (43200 s into the day) for lunch and at 18:00 (64800 s)
/// for dinner.
pub open spec fn valid_dish_order(
    w: VerifiedDishOrderRequest,
    req: DishOrderRequest,
    dishes: Seq<Dish>,
    people: Seq<(u128, u64)>,
    train_id: u64,
    day_start: i64,
) -> bool {
    &&& exists|d: int|
        0 <= d < dishes.len() && (#[trigger] dishes[d]).name@ == req.name@ && dishes[d].id == Some(w.dish_id)
            && dishes[d].unit_price == w.unit_price
    &&& exists|p: int| 0 <= p < people.len() && #[trigger] people[p] == (req.personal_id, w.personal_id)
    &&& w.train_id == train_id
    &&& req.amount != 0
    &&& w.amount == (Amount { mantissa: req.amount as i128, scale: 0 })
    &&& req.dish_time == Some(w.dish_time)
    &&& (w.dish_time == DishTime::Lunch ==> w.active_time == day_start + 43200)
    &&& (w.dish_time == DishTime::Dinner ==> w.active_time == day_start + 64800)
}

proof fn lemma_dish_requests_ok(
    dishes: Seq<Dish>,
    people: Seq<(u128, u64)>,
    train_id: u64,
    day_start: i64,
    reqs: Seq<DishOrderRequest>,
    v: Seq<VerifiedDishOrderRequest>,
)
    requires
        dish_requests_check(dishes, people, train_id, day_start, reqs) == Ok::<
            Seq<VerifiedDishOrderRequest>,
            MealRequestError,
        >(v),
    ensures
        v.len() == reqs.len(),
        forall|k: int|
            0 <= k < reqs.len() ==> dish_request_check(dishes, people, train_id, day_start, #[trigger] reqs[k])
                == Ok::<VerifiedDishOrderRequest, MealRequestError>(v[k]),
    decreases reqs.len(),
{
    if reqs.len() > 0 {
        let prev = dish_requests_check(dishes, people, train_id, day_start, reqs.drop_last());
        let pv = prev->Ok_0;
        lemma_dish_requests_ok(dishes, people, train_id, day_start, reqs.drop_last(), pv);
        assert forall|k: int| 0 <= k < reqs.len() implies dish_request_check(
            dishes,
            people,
            train_id,
            day_start,
            #[trigger] reqs[k],
        ) == Ok::<VerifiedDishOrderRequest, MealRequestError>(v[k]) by {
            if k < reqs.len() - 1 {
                assert(reqs.drop_last()[k] == reqs[k]);
            }
        }
    }
}

/// Every dish order that the check accepts is valid for its request: the
/// requested dish of the train, the requested passenger and amount, and
/// active at noon for lunch and at 18:00 for dinner on the day of the
/// departure.
pub proof fn law_dish_orders_are_served_at_meal_time(
    dishes: Seq<Dish>,
    people: Seq<(u128, u64)>,
    train_id: u64,
    day_start: i64,
    reqs: Seq<DishOrderRequest>,
    v: Seq<VerifiedDishOrderRequest>,
)
    requires
        day_start + 64800 <= i64::MAX,
        forall|k: int|
            0 <= k < reqs.len() && dish_named(dishes, (#[trigger] reqs[k]).name@) >= 0 ==> dishes[dish_named(
                dishes,
                reqs[k].name@,
            )].id is Some,
        dish_requests_check(dishes, people, train_id, day_start, reqs) == Ok::<
            Seq<VerifiedDishOrderRequest>,
            MealRequestError,
        >(v),
    ensures
        v.len() == reqs.len(),
        forall|k: int|
            0 <= k < reqs.len() ==> valid_dish_order(#[trigger] v[k], reqs[k], dishes, people, train_id, day_start),
{
    lemma_dish_requests_ok(dishes, people, train_id, day_start, reqs, v);
    assert forall|k: int| 0 <= k < reqs.len() implies valid_dish_order(
        #[trigger] v[k],
        reqs[k],
        dishes,
        people,
        train_id,
        day_start,
    ) by {
        let req = reqs[k];
        assert(dish_request_check(dishes, people, train_id, day_start, req) == Ok::<
            VerifiedDishOrderRequest,
            MealRequestError,
        >(v[k]));
        lemma_dish_named(dishes, req.name@);
        lemma_person_index(people, req.personal_id);
        let d = dish_named(dishes, req.name@);
        let p = person_index(people, req.personal_id);
        assert(dishes[d].name@ == req.name@);
        assert(dishes[d].id == Some(v[k].dish_id));
        assert(people[p] == (req.personal_id, v[k].personal_id));
    }
}

/// Checks the dish requests of an order against the menu of the train and
/// the passengers of the user (`personal_uuid_to_id`); `day_start` is the
/// start of the day of the origin departure, in seconds, so that a meal is
/// active at noon or at 18:00 of that day.
pub fn verify_dish_order_request(
    train_id: u64,
    day_start: i64,
    dishes: &Vec<Dish>,
    personal_uuid_to_id: &Vec<(u128, u64)>,
    request_list: &Vec<DishOrderRequest>,
) -> (r: Result<Vec<VerifiedDishOrderRequest>, MealRequestError>)
    requires
        forall|k: int|
            0 <= k < request_list@.len() && dish_named(dishes@, (#[trigger] request_list@[k]).name@) >= 0
                ==> dishes@[dish_named(dishes@, request_list@[k].name@)].id is Some,
        day_start + 18 * 3600 <= i64::MAX,
    ensures
        match dish_requests_check(dishes@, personal_uuid_to_id@, train_id, day_start, request_list@) {
            Err(e) => r == Err::<Vec<VerifiedDishOrderRequest>, _>(e),
            Ok(v) => r matches Ok(w) && w@ == v,
        },
        r matches Ok(w) ==> w@.len() == request_list@.len() && forall|k: int|
            0 <= k < w@.len() ==> valid_dish_order(
                #[trigger] w@[k],
                request_list@[k],
                dishes@,
                personal_uuid_to_id@,
                train_id,
                day_start,
            ),
{
    let mut result: Vec<VerifiedDishOrderRequest> = Vec::new();
    let mut i: usize = 0;
    while i < request_list.len()
        invariant
            i <= request_list@.len(),
            forall|k: int|
                0 <= k < request_list@.len() && dish_named(dishes@, (#[trigger] request_list@[k]).name@) >= 0
                    ==> dishes@[dish_named(dishes@, request_list@[k].name@)].id is Some,
            day_start + 18 * 3600 <= i64::MAX,
            dish_requests_check(dishes@, personal_uuid_to_id@, train_id, day_start, request_list@.take(i as int))
                == Ok::<Seq<VerifiedDishOrderRequest>, MealRequestError>(result@),
        decreases request_list@.len() - i,
    {
        let req = &request_list[i];
        proof {
            assert(request_list@.take(i + 1).drop_last() =~= request_list@.take(i as int));
            assert(request_list@.take(i + 1).last() == request_list@[i as int]);
            lemma_dish_named(dishes@, req.name@);
            lemma_person_index(personal_uuid_to_id@, req.personal_id);
        }
        let d = match find_dish(dishes, &req.name) {
            Some(d) => d,
            None => {
                proof {
                    lemma_check_stops(dishes@, personal_uuid_to_id@, train_id, day_start, request_list@, i + 1);
                }
                return Err(
                    MealRequestError::Service(
                        TrainDishApplicationServiceError::InvalidDishName(req.name.clone()),
                    ),
                );
            },
        };
        let p = match find_person(personal_uuid_to_id, req.personal_id) {
            Some(p) => p,
            None => {
                proof {
                    lemma_check_stops(dishes@, personal_uuid_to_id@, train_id, day_start, request_list@, i + 1);
                }
                return Err(MealRequestError::InvalidPersonalId(req.personal_id));
            },
        };
        if req.amount == 0 {
            proof {
                lemma_check_stops(dishes@, personal_uuid_to_id@, train_id, day_start, request_list@, i + 1);
            }
            return Err(MealRequestError::ZeroAmount);
        }
        let t = match req.dish_time {
            Some(t) => t,
            None => {
                proof {
                    lemma_check_stops(dishes@, personal_uuid_to_id@, train_id, day_start, request_list@, i + 1);
                }
                return Err(MealRequestError::InvalidDishTime);
            },
        };
        let hour_offset: i64 = match t {
            DishTime::Lunch => 43200,
            DishTime::Dinner => 64800,
        };
        let dish = &dishes[d];
        let dish_id = match dish.id {
            Some(id) => id,
            None => 0,
        };
        assert(request_list@[i as int] == *req);
        result.push(
            VerifiedDishOrderRequest {
                dish_id,
                personal_id: personal_uuid_to_id[p].1,
                train_id,
                unit_price: dish.unit_price,
                amount: Amount { mantissa: req.amount as i128, scale: 0 },
                dish_time: t,
                active_time: day_start + hour_offset,
            },
        );
        i += 1;
    }
    proof {
        assert(request_list@.take(i as int) =~= request_list@);
        law_dish_orders_are_served_at_meal_time(
            dishes@,
            personal_uuid_to_id@,
            train_id,
            day_start,
            request_list@,
            result@,
        );
    }
    Ok(result)
}

proof fn lemma_check_stops(
    dishes: Seq<Dish>,
    people: Seq<(u128, u64)>,
    train_id: u64,
    day_start: i64,
    reqs: Seq<DishOrderRequest>,
    n: int,
)
    requires
        0 <= n <= reqs.len(),
        dish_requests_check(dishes, people, train_id, day_start, reqs.take(n)) is Err,
    ensures
        dish_requests_check(dishes, people, train_id, day_start, reqs) == dish_requests_check(
            dishes,
            people,
            train_id,
            day_start,
            reqs.take(n),
        ),
    decreases reqs.len(),
{
    if reqs.len() > n {
        assert(reqs.drop_last().take(n) =~= reqs.take(n));
        lemma_check_stops(dishes, people, train_id, day_start, reqs.drop_last(), n);
    } else {
        assert(reqs.take(n) =~= reqs);
    }
}

/// A train order of a user, as far as meal ordering needs it.
#[derive(Debug, Clone, Copy, PartialEq, Eq)]
pub struct UserOrder {
    pub order_id: Option<u64>,
    pub order_status: OrderStatus,
    pub train_schedule_id: Option<u64>,
}

/// Index of the first paid, ongoing or active train order for the schedule, or -1.
pub open spec fn related_order_index(orders: Seq<UserOrder>, schedule_id: u64) -> int
    decreases orders.len(),
{
    if orders.len() == 0 {
        -1
    } else if related_order_index(orders.drop_last(), schedule_id) >= 0 {
        related_order_index(orders.drop_last(), schedule_id)
    } else if is_related(orders.last(), schedule_id) {
        orders.len() - 1
    } else {
        -1
    }
}

/// A paid, ongoing or active order for a train ticket on the schedule.
pub open spec fn is_related(o: UserOrder, schedule_id: u64) -> bool {
    &&& (o.order_status == OrderStatus::Paid || o.order_status == OrderStatus::Ongoing || o.order_status
        == OrderStatus::Active)
    &&& o.train_schedule_id == Some(schedule_id)
}

proof fn lemma_related_prefix(orders: Seq<UserOrder>, schedule_id: u64, n: int)
    requires
        0 <= n <= orders.len(),
        related_order_index(orders.take(n), schedule_id) >= 0,
    ensures
        related_order_index(orders, schedule_id) == related_order_index(orders.take(n), schedule_id),
    decreases orders.len(),
{
    if orders.len() > n {
        assert(orders.drop_last().take(n) =~= orders.take(n));
        lemma_related_prefix(orders.drop_last(), schedule_id, n);
    } else {
        assert(orders.take(n) =~= orders);
    }
}

/// The order found for the schedule is the user's first ticket for it that
/// entitles to meals: one paid, ongoing or active (never unpaid, cancelled,
/// failed or completed); and none is found exactly when the user holds no
/// such ticket for the schedule.
pub proof fn law_related_ticket_is_paid_for_the_schedule(orders: Seq<UserOrder>, schedule_id: u64)
    ensures
        -1 <= related_order_index(orders, schedule_id) < orders.len(),
        related_order_index(orders, schedule_id) >= 0 ==> {
            let o = orders[related_order_index(orders, schedule_id)];
            &&& o.train_schedule_id == Some(schedule_id)
            &&& (o.order_status == OrderStatus::Paid || o.order_status == OrderStatus::Ongoing || o.order_status
                == OrderStatus::Active)
        },
        forall|k: int|
            0 <= k < orders.len() && (k < related_order_index(orders, schedule_id) || related_order_index(
                orders,
                schedule_id,
            ) < 0) ==> !((#[trigger] orders[k]).train_schedule_id == Some(schedule_id) && (orders[k].order_status
                == OrderStatus::Paid || orders[k].order_status == OrderStatus::Ongoing || orders[k].order_status
                == OrderStatus::Active)),
    decreases orders.len(),
{
    if orders.len() > 0 {
        law_related_ticket_is_paid_for_the_schedule(orders.drop_last(), schedule_id);
        assert forall|k: int| 0 <= k < orders.len() - 1 implies orders.drop_last()[k] == orders[k] by {}
    }
}

/// The id of the user's first paid, ongoing or active ticket for the
/// schedule (`train_schedule_id` is `None` for orders that are not train
/// tickets); `NoRelatedTrainOrder` when there is none.
pub fn verify_train_order(orders: &Vec<UserOrder>, train_schedule_id: u64) -> (r: Result<
    u64,
    TrainDishApplicationServiceError,
>)
    requires
        related_order_index(orders@, train_schedule_id) >= 0 ==> orders@[related_order_index(
            orders@,
            train_schedule_id,
        )].order_id is Some,
    ensures
        related_order_index(orders@, train_schedule_id) < 0 ==> r == Err::<u64, _>(
            TrainDishApplicationServiceError::NoRelatedTrainOrder,
        ),
        related_order_index(orders@, train_schedule_id) >= 0 ==> r == Ok::<
            u64,
            TrainDishApplicationServiceError,
        >(orders@[related_order_index(orders@, train_schedule_id)].order_id->0),
        r matches Ok(id) ==> exists|k: int|
            0 <= k < orders@.len() && (#[trigger] orders@[k]).order_id == Some(id) && orders@[k].train_schedule_id
                == Some(train_schedule_id) && (orders@[k].order_status == OrderStatus::Paid
                || orders@[k].order_status == OrderStatus::Ongoing || orders@[k].order_status == OrderStatus::Active),
        r is Err ==> forall|k: int|
            0 <= k < orders@.len() ==> !((#[trigger] orders@[k]).train_schedule_id == Some(train_schedule_id) && (
            orders@[k].order_status == OrderStatus::Paid || orders@[k].order_status == OrderStatus::Ongoing
                || orders@[k].order_status == OrderStatus::Active)),
{
    proof {
        law_related_ticket_is_paid_for_the_schedule(orders@, train_schedule_id);
    }
    let mut i: usize = 0;
    while i < orders.len()
        invariant
            i <= orders@.len(),
            related_order_index(orders@.take(i as int), train_schedule_id) < 0,
            related_order_index(orders@, train_schedule_id) >= 0 ==> orders@[related_order_index(
                orders@,
                train_schedule_id,
            )].order_id is Some,
        decreases orders@.len() - i,
    {
        proof {
            assert(orders@.take(i + 1).drop_last() =~= orders@.take(i as int));
            assert(orders@.take(i + 1).last() == orders@[i as int]);
        }
        let o = orders[i];
        let status_ok = o.order_status == OrderStatus::Paid || o.order_status == OrderStatus::Ongoing
            || o.order_status == OrderStatus::Active;
        let same = match o.train_schedule_id {
            Some(s) => s == train_schedule_id,
            None => false,
        };
        if status_ok && same {
            proof {
                lemma_related_prefix(orders@, train_schedule_id, i + 1);
            }
            return match o.order_id {
                Some(id) => Ok(id),
                None => Err(TrainDishApplicationServiceError::NoRelatedTrainOrder),
            };
        }
        i += 1;
    }
    proof {
        assert(orders@.take(i as int) =~= orders@);
    }
    Err(TrainDishApplicationServiceError::NoRelatedTrainOrder)
}

/// What a user is told about booking meals on a train: nothing when the
/// user holds a ticket for it, else why not.
pub fn booking_reason(can_booking: bool) -> (r: Option<String>)
    ensures
        can_booking ==> r is None,
        !can_booking ==> (r matches Some(s) && s@ == "您尚未购买此车次的火车票，无法预订餐食"@),
{
    if can_booking {
        None
    } else {
        Some("您尚未购买此车次的火车票，无法预订餐食".to_owned())
    }
}

/// The train meal ordering service; the repositories and ports are reached
/// by the caller.
pub struct TrainDishApplicationServiceImpl<DR, TR, TP, UP, GP, OP> {
    pub dish_repository: Arc<DR>,
    pub takeaway_shop_repository: Arc<TR>,
    pub train_port: Arc<TP>,
    pub user_port: Arc<UP>,
    pub geo_port: Arc<GP>,
    pub order_service: Arc<OP>,
    pub tz_offset_hour: u32,
}

impl<DR, TR, TP, UP, GP, OP> TrainDishApplicationServiceImpl<DR, TR, TP, UP, GP, OP> {
    /// A service over its repositories and ports, for a time zone
    /// `tz_offset_hour` hours east of UTC.
    pub fn new(
        dish_repository: Arc<DR>,
        takeaway_shop_repository: Arc<TR>,
        train_port: Arc<TP>,
        user_port: Arc<UP>,
        geo_port: Arc<GP>,
        order_service: Arc<OP>,
        tz_offset_hour: u32,
    ) -> (s: Self)
        ensures
            s.dish_repository == dish_repository,
            s.takeaway_shop_repository == takeaway_shop_repository,
            s.train_port == train_port,
            s.user_port == user_port,
            s.geo_port == geo_port,
            s.order_service == order_service,
            s.tz_offset_hour == tz_offset_hour,
    {
        Self {
            dish_repository,
            takeaway_shop_repository,
            train_port,
            user_port,
            geo_port,
            order_service,
            tz_offset_hour,
        }
    }
}

/// A dish that a shop along the route delivers to the train.
#[derive(Debug, Clone)]
pub struct TakeawayDish {
    pub id: Option<u64>,
    pub name: String,
    pub unit_price: Amount,
}

/// A shop at a station along the route.
#[derive(Debug, Clone)]
pub struct TakeawayShop {
    pub name: String,
    pub dishes: Vec<TakeawayDish>,
}

/// A request for a takeaway dish, delivered at a station.
#[derive(Debug, Clone)]
pub struct TakeawayOrderRequest {
    pub station: String,
    pub shop_name: String,
    pub name: String,
    pub personal_id: u128,
    pub amount: i32,
}

/// A takeaway request checked against the shops and the passengers.
#[derive(Debug, Clone, Copy, PartialEq, Eq)]
pub struct VerifiedTakeawayOrderRequest {
    pub takeaway_dish_id: u64,
    pub train_id: u64,
    pub station_id: u64,
    pub personal_id: u64,
    pub unit_price: Amount,
    pub amount: Amount,
    pub active_time: i64,
}

/// The station id of the last station named `name`, if any.
pub open spec fn station_named(stations: Seq<(String, u64)>, name: Seq<char>) -> Option<u64>
    decreases stations.len(),
{
    if stations.len() == 0 {
        None
    } else if stations.last().0@ == name {
        Some(stations.last().1)
    } else {
        station_named(stations.drop_last(), name)
    }
}

/// The arrival offset at the last stop at station `st`, if the route stops there.
pub open spec fn stop_arrival(stops: Seq<(Stop, Vec<TakeawayShop>)>, st: u64) -> Option<u32>
    decreases stops.len(),
{
    if stops.len() == 0 {
        None
    } else if stops.last().0.station_id == st {
        Some(stops.last().0.arrival_time)
    } else {
        stop_arrival(stops.drop_last(), st)
    }
}

/// Some shop named `shop` is at a stop at station `st`.
pub open spec fn shop_at(stops: Seq<(Stop, Vec<TakeawayShop>)>, st: u64, shop: Seq<char>) -> bool {
    exists|k: int, j: int|
        0 <= k < stops.len() && stops[k].0.station_id == st && 0 <= j < stops[k].1@.len()
            && (#[trigger] stops[k].1@[j]).name@ == shop
}

/// The last dish named `name` in the list.
pub open spec fn last_dish(dishes: Seq<TakeawayDish>, name: Seq<char>) -> Option<TakeawayDish>
    decreases dishes.len(),
{
    if dishes.len() == 0 {
        None
    } else if dishes.last().name@ == name {
        Some(dishes.last())
    } else {
        last_dish(dishes.drop_last(), name)
    }
}

/// The last dish named `name` of the shops named `shop`.
pub open spec fn last_shop_dish(shops: Seq<TakeawayShop>, shop: Seq<char>, name: Seq<char>) -> Option<TakeawayDish>
    decreases shops.len(),
{
    if shops.len() == 0 {
        None
    } else {
        let here = if shops.last().name@ == shop {
            last_dish(shops.last().dishes@, name)
        } else {
            None
        };
        match here {
            Some(d) => Some(d),
            None => last_shop_dish(shops.drop_last(), shop, name),
        }
    }
}

/// The last dish named `name` of the shops named `shop` at station `st`:
/// the shops keyed by station, then by shop name, then by dish name.
pub open spec fn takeaway_dish(stops: Seq<(Stop, Vec<TakeawayShop>)>, st: u64, shop: Seq<char>, name: Seq<char>) -> Option<
    TakeawayDish,
>
    decreases stops.len(),
{
    if stops.len() == 0 {
        None
    } else {
        let here = if stops.last().0.station_id == st {
            last_shop_dish(stops.last().1@, shop, name)
        } else {
            None
        };
        match here {
            Some(d) => Some(d),
            None => takeaway_dish(stops.drop_last(), st, shop, name),
        }
    }
}

/// The check of one takeaway request: the station, the shop at it and the
/// dish of the shop must exist, and the passenger be known; the meal is due
/// when the train reaches the station; the amount must not be zero.
pub open spec fn takeaway_request_check(
    stops: Seq<(Stop, Vec<TakeawayShop>)>,
    stations: Seq<(String, u64)>,
    people: Seq<(u128, u64)>,
    train_id: u64,
    date: i32,
    origin_departure_time: i32,
    req: TakeawayOrderRequest,
) -> Result<VerifiedTakeawayOrderRequest, MealRequestError> {
    match station_named(stations, req.station@) {
        None => Err(MealRequestError::Service(TrainDishApplicationServiceError::InvalidTakeawayStation(req.station))),
        Some(st) => if stop_arrival(stops, st) is None {
            Err(MealRequestError::Service(TrainDishApplicationServiceError::InvalidTakeawayStation(req.station)))
        } else if !shop_at(stops, st, req.shop_name@) {
            Err(
                MealRequestError::Service(
                    TrainDishApplicationServiceError::InvalidTakeawayShopName(req.shop_name),
                ),
            )
        } else {
            match takeaway_dish(stops, st, req.shop_name@, req.name@) {
                None => Err(MealRequestError::Service(TrainDishApplicationServiceError::InvalidDishName(req.name))),
                Some(d) => if person_index(people, req.personal_id) < 0 {
                    Err(MealRequestError::InvalidPersonalId(req.personal_id))
                } else if req.amount == 0 {
                    Err(MealRequestError::ZeroAmount)
                } else {
                    Ok(
                        VerifiedTakeawayOrderRequest {
                            takeaway_dish_id: d.id->0,
                            train_id,
                            station_id: st,
                            personal_id: people[person_index(people, req.personal_id)].1,
                            unit_price: d.unit_price,
                            amount: Amount { mantissa: req.amount as i128, scale: 0 },
                            active_time: (date * 86400 + due_offset(
                                origin_departure_time,
                                stop_arrival(stops, st)->0,
                            )) as i64,
                        },
                    )
                },
            }
        },
    }
}

/// Seconds into the schedule's day at which the train reaches a stop: the
/// origin departure time as a `u32` plus the stop's arrival offset.
pub open spec fn due_offset(origin_departure_time: i32, arrival: u32) -> int {
    (if origin_departure_time >= 0 {
        origin_departure_time as int
    } else {
        origin_departure_time + 0x1_0000_0000
    }) + arrival
}

proof fn lemma_station_named(stations: Seq<(String, u64)>, name: Seq<char>) -> (k: int)
    requires
        station_named(stations, name) is Some,
    ensures
        0 <= k < stations.len(),
        stations[k].0@ == name,
        Some(stations[k].1) == station_named(stations, name),
    decreases stations.len(),
{
    if stations.last().0@ == name {
        stations.len() - 1
    } else {
        let k = lemma_station_named(stations.drop_last(), name);
        assert(stations.drop_last()[k] == stations[k]);
        k
    }
}

proof fn lemma_stop_arrival(stops: Seq<(Stop, Vec<TakeawayShop>)>, st: u64) -> (m: int)
    requires
        stop_arrival(stops, st) is Some,
    ensures
        0 <= m < stops.len(),
        stops[m].0.station_id == st,
        Some(stops[m].0.arrival_time) == stop_arrival(stops, st),
    decreases stops.len(),
{
    if stops.last().0.station_id == st {
        stops.len() - 1
    } else {
        let m = lemma_stop_arrival(stops.drop_last(), st);
        assert(stops.drop_last()[m] == stops[m]);
        m
    }
}

proof fn lemma_last_dish(dishes: Seq<TakeawayDish>, name: Seq<char>) -> (t: int)
    requires
        last_dish(dishes, name) is Some,
    ensures
        0 <= t < dishes.len(),
        Some(dishes[t]) == last_dish(dishes, name),
        dishes[t].name@ == name,
    decreases dishes.len(),
{
    if dishes.last().name@ == name {
        dishes.len() - 1
    } else {
        let t = lemma_last_dish(dishes.drop_last(), name);
        assert(dishes.drop_last()[t] == dishes[t]);
        t
    }
}

proof fn lemma_last_shop_dish(shops: Seq<TakeawayShop>, shop: Seq<char>, name: Seq<char>) -> (w: (int, int))
    requires
        last_shop_dish(shops, shop, name) is Some,
    ensures
        0 <= w.0 < shops.len(),
        0 <= w.1 < shops[w.0].dishes@.len(),
        shops[w.0].name@ == shop,
        Some(shops[w.0].dishes@[w.1]) == last_shop_dish(shops, shop, name),
        shops[w.0].dishes@[w.1].name@ == name,
    decreases shops.len(),
{
    if shops.last().name@ == shop && last_dish(shops.last().dishes@, name) is Some {
        let t = lemma_last_dish(shops.last().dishes@, name);
        (shops.len() - 1, t)
    } else {
        let w = lemma_last_shop_dish(shops.drop_last(), shop, name);
        assert(shops.drop_last()[w.0] == shops[w.0]);
        w
    }
}

proof fn lemma_takeaway_dish(stops: Seq<(Stop, Vec<TakeawayShop>)>, st: u64, shop: Seq<char>, name: Seq<char>) -> (w: (
    int,
    int,
    int,
))
    requires
        takeaway_dish(stops, st, shop, name) is Some,
    ensures
        0 <= w.0 < stops.len(),
        stops[w.0].0.station_id == st,
        0 <= w.1 < stops[w.0].1@.len(),
        0 <= w.2 < stops[w.0].1@[w.1].dishes@.len(),
        stops[w.0].1@[w.1].name@ == shop,
        Some(stops[w.0].1@[w.1].dishes@[w.2]) == takeaway_dish(stops, st, shop, name),
        stops[w.0].1@[w.1].dishes@[w.2].name@ == name,
    decreases stops.len(),
{
    if stops.last().0.station_id == st && last_shop_dish(stops.last().1@, shop, name) is Some {
        let v = lemma_last_shop_dish(stops.last().1@, shop, name);
        (stops.len() - 1, v.0, v.1)
    } else {
        let w = lemma_takeaway_dish(stops.drop_last(), st, shop, name);
        assert(stops.drop_last()[w.0] == stops[w.0]);
        w
    }
}

/// `w` is a valid checked form of the takeaway request `req`: the station
/// is the one named in the request and a stop of the route; the dish is one
/// with the requested name of a shop with the requested name at that
/// station, with its id and price; the passenger is one of the user's; the
/// amount is the requested one and not zero; and the order is due when the
/// train reaches the station: the start of day `date`, plus the origin
/// departure time (read as a `u32`), plus the stop's arrival offset.
pub open spec fn valid_takeaway_order(
    w: VerifiedTakeawayOrderRequest,
    req: TakeawayOrderRequest,
    stops: Seq<(Stop, Vec<TakeawayShop>)>,
    stations: Seq<(String, u64)>,
    people: Seq<(u128, u64)>,
    train_id: u64,
    date: i32,
    origin_departure_time: i32,
) -> bool {
    &&& exists|k: int| 0 <= k < stations.len() && (#[trigger] stations[k]).0@ == req.station@ && stations[k].1 == w.station_id
    &&& exists|m: int|
        0 <= m < stops.len() && (#[trigger] stops[m]).0.station_id == w.station_id && w.active_time == date * 86400
            + (if origin_departure_time >= 0 {
            origin_departure_time as int
        } else {
            origin_departure_time + 0x1_0000_0000
        }) + stops[m].0.arrival_time
    &&& exists|m: int, s: int, t: int|
        #![trigger stops[m].1@[s].dishes@[t]]
        0 <= m < stops.len() && stops[m].0.station_id == w.station_id && 0 <= s < stops[m].1@.len()
            && stops[m].1@[s].name@ == req.shop_name@ && 0 <= t < stops[m].1@[s].dishes@.len()
            && stops[m].1@[s].dishes@[t].name@ == req.name@ && stops[m].1@[s].dishes@[t].id == Some(w.takeaway_dish_id)
            && stops[m].1@[s].dishes@[t].unit_price == w.unit_price
    &&& exists|p: int| 0 <= p < people.len() && #[trigger] people[p] == (req.personal_id, w.personal_id)
    &&& w.train_id == train_id
    &&& req.amount != 0
    &&& w.amount == (Amount { mantissa: req.amount as i128, scale: 0 })
}

proof fn lemma_takeaway_requests_ok(
    stops: Seq<(Stop, Vec<TakeawayShop>)>,
    stations: Seq<(String, u64)>,
    people: Seq<(u128, u64)>,
    train_id: u64,
    date: i32,
    origin_departure_time: i32,
    reqs: Seq<TakeawayOrderRequest>,
    v: Seq<VerifiedTakeawayOrderRequest>,
)
    requires
        takeaway_requests_check(stops, stations, people, train_id, date, origin_departure_time, reqs) == Ok::<
            Seq<VerifiedTakeawayOrderRequest>,
            MealRequestError,
        >(v),
    ensures
        v.len() == reqs.len(),
        forall|k: int|
            0 <= k < reqs.len() ==> takeaway_request_check(
                stops,
                stations,
                people,
                train_id,
                date,
                origin_departure_time,
                #[trigger] reqs[k],
            ) == Ok::<VerifiedTakeawayOrderRequest, MealRequestError>(v[k]),
    decreases reqs.len(),
{
    if reqs.len() > 0 {
        let prev = takeaway_requests_check(stops, stations, people, train_id, date, origin_departure_time, reqs.drop_last());
        lemma_takeaway_requests_ok(stops, stations, people, train_id, date, origin_departure_time, reqs.drop_last(), prev->Ok_0);
        assert forall|k: int| 0 <= k < reqs.len() implies takeaway_request_check(
            stops,
            stations,
            people,
            train_id,
            date,
            origin_departure_time,
            #[trigger] reqs[k],
        ) == Ok::<VerifiedTakeawayOrderRequest, MealRequestError>(v[k]) by {
            if k < reqs.len() - 1 {
                assert(reqs.drop_last()[k] == reqs[k]);
            }
        }
    }
}

/// Every takeaway order that the check accepts is valid for its request:
/// the named station and shop, the requested dish of that shop with its id
/// and price, the requested passenger and amount, and due when the train
/// reaches that station.
pub proof fn law_takeaway_orders_are_due_at_the_station(
    stops: Seq<(Stop, Vec<TakeawayShop>)>,
    stations: Seq<(String, u64)>,
    people: Seq<(u128, u64)>,
    train_id: u64,
    date: i32,
    origin_departure_time: i32,
    reqs: Seq<TakeawayOrderRequest>,
    v: Seq<VerifiedTakeawayOrderRequest>,
)
    requires
        forall|k: int|
            0 <= k < reqs.len() ==> takeaway_request_fits(stops, stations, people, origin_departure_time, #[trigger] reqs[k]),
        takeaway_requests_check(stops, stations, people, train_id, date, origin_departure_time, reqs) == Ok::<
            Seq<VerifiedTakeawayOrderRequest>,
            MealRequestError,
        >(v),
    ensures
        v.len() == reqs.len(),
        forall|k: int|
            0 <= k < reqs.len() ==> valid_takeaway_order(
                #[trigger] v[k],
                reqs[k],
                stops,
                stations,
                people,
                train_id,
                date,
                origin_departure_time,
            ),
{
    lemma_takeaway_requests_ok(stops, stations, people, train_id, date, origin_departure_time, reqs, v);
    assert forall|k: int| 0 <= k < reqs.len() implies valid_takeaway_order(
        #[trigger] v[k],
        reqs[k],
        stops,
        stations,
        people,
        train_id,
        date,
        origin_departure_time,
    ) by {
        let req = reqs[k];
        assert(takeaway_request_fits(stops, stations, people, origin_departure_time, req));
        assert(takeaway_request_check(stops, stations, people, train_id, date, origin_departure_time, req) == Ok::<
            VerifiedTakeawayOrderRequest,
            MealRequestError,
        >(v[k]));
        let ks = lemma_station_named(stations, req.station@);
        let st = stations[ks].1;
        let m = lemma_stop_arrival(stops, st);
        let w = lemma_takeaway_dish(stops, st, req.shop_name@, req.name@);
        lemma_person_index(people, req.personal_id);
        let p = person_index(people, req.personal_id);
        assert(people[p] == (req.personal_id, v[k].personal_id));
        assert(stations[ks].1 == v[k].station_id);
        assert(stops[m].0.station_id == v[k].station_id);
        assert(stops[w.0].1@[w.1].dishes@[w.2].id == Some(v[k].takeaway_dish_id));
    }
}

/// The request can be checked without failing: once its lookups succeed,
/// the due time falls within the day and the dish found has an id.
pub open spec fn takeaway_request_fits(
    stops: Seq<(Stop, Vec<TakeawayShop>)>,
    stations: Seq<(String, u64)>,
    people: Seq<(u128, u64)>,
    origin_departure_time: i32,
    req: TakeawayOrderRequest,
) -> bool {
    match station_named(stations, req.station@) {
        None => true,
        Some(st) => match takeaway_dish(stops, st, req.shop_name@, req.name@) {
            None => true,
            Some(d) => match stop_arrival(stops, st) {
                None => true,
                Some(a) => shop_at(stops, st, req.shop_name@) && person_index(people, req.personal_id)
                    >= 0 ==> due_offset(origin_departure_time, a) < 86400 && (req.amount != 0
                    ==> d.id is Some),
            },
        },
    }
}

/// The checked requests in order, or the error of the first request refused.
pub open spec fn takeaway_requests_check(
    stops: Seq<(Stop, Vec<TakeawayShop>)>,
    stations: Seq<(String, u64)>,
    people: Seq<(u128, u64)>,
    train_id: u64,
    date: i32,
    origin_departure_time: i32,
    reqs: Seq<TakeawayOrderRequest>,
) -> Result<Seq<VerifiedTakeawayOrderRequest>, MealRequestError>
    decreases reqs.len(),
{
    if reqs.len() == 0 {
        Ok(Seq::empty())
    } else {
        match takeaway_requests_check(stops, stations, people, train_id, date, origin_departure_time, reqs.drop_last()) {
            Err(e) => Err(e),
            Ok(v) => match takeaway_request_check(
                stops,
                stations,
                people,
                train_id,
                date,
                origin_departure_time,
                reqs.last(),
            ) {
                Err(e) => Err(e),
                Ok(x) => Ok(v.push(x)),
            },
        }
    }
}

proof fn lemma_takeaway_check_stops(
    stops: Seq<(Stop, Vec<TakeawayShop>)>,
    stations: Seq<(String, u64)>,
    people: Seq<(u128, u64)>,
    train_id: u64,
    date: i32,
    odt: i32,
    reqs: Seq<TakeawayOrderRequest>,
    n: int,
)
    requires
        0 <= n <= reqs.len(),
        takeaway_requests_check(stops, stations, people, train_id, date, odt, reqs.take(n)) is Err,
    ensures
        takeaway_requests_check(stops, stations, people, train_id, date, odt, reqs)
            == takeaway_requests_check(stops, stations, people, train_id, date, odt, reqs.take(n)),
    decreases reqs.len(),
{
    if reqs.len() > n {
        assert(reqs.drop_last().take(n) =~= reqs.take(n));
        lemma_takeaway_check_stops(stops, stations, people, train_id, date, odt, reqs.drop_last(), n);
    } else {
        assert(reqs.take(n) =~= reqs);
    }
}

fn find_station(stations: &Vec<(String, u64)>, name: &String) -> (r: Option<u64>)
    ensures
        r == station_named(stations@, name@),
{
    let mut k: usize = stations.len();
    assert(stations@.take(k as int) =~= stations@);
    while k > 0
        invariant
            k <= stations@.len(),
            station_named(stations@, name@) == station_named(stations@.take(k as int), name@),
        decreases k,
    {
        proof {
            assert(stations@.take(k as int).drop_last() =~= stations@.take(k - 1));
            assert(stations@.take(k as int).last() == stations@[k - 1]);
        }
        if stations[k - 1].0 == *name {
            return Some(stations[k - 1].1);
        }
        k -= 1;
    }
    proof {
        assert(stations@.take(0) =~= Seq::<(String, u64)>::empty());
    }
    None
}

fn find_arrival(stops: &Vec<(Stop, Vec<TakeawayShop>)>, st: u64) -> (r: Option<u32>)
    ensures
        r == stop_arrival(stops@, st),
{
    let mut k: usize = stops.len();
    assert(stops@.take(k as int) =~= stops@);
    while k > 0
        invariant
            k <= stops@.len(),
            stop_arrival(stops@, st) == stop_arrival(stops@.take(k as int), st),
        decreases k,
    {
        proof {
            assert(stops@.take(k as int).drop_last() =~= stops@.take(k - 1));
            assert(stops@.take(k as int).last() == stops@[k - 1]);
        }
        if stops[k - 1].0.station_id == st {
            return Some(stops[k - 1].0.arrival_time);
        }
        k -= 1;
    }
    proof {
        assert(stops@.take(0) =~= Seq::<(Stop, Vec<TakeawayShop>)>::empty());
    }
    None
}

fn has_shop(stops: &Vec<(Stop, Vec<TakeawayShop>)>, st: u64, shop: &String) -> (b: bool)
    ensures
        b == shop_at(stops@, st, shop@),
{
    let mut k: usize = 0;
    while k < stops.len()
        invariant
            k <= stops@.len(),
            forall|a: int, j: int|
                0 <= a < k && stops@[a].0.station_id == st && 0 <= j < stops@[a].1@.len() ==> (#[trigger] stops@[a].1@[j]).name@
                    != shop@,
        decreases stops@.len() - k,
    {
        if stops[k].0.station_id == st {
            let shops = &stops[k].1;
            let mut j: usize = 0;
            while j < shops.len()
                invariant
                    k < stops@.len(),
                    shops@ == stops@[k as int].1@,
                    stops@[k as int].0.station_id == st,
                    j <= shops@.len(),
                    forall|t: int| 0 <= t < j ==> (#[trigger] shops@[t]).name@ != shop@,
                decreases shops@.len() - j,
            {
                if shops[j].name == *shop {
                    assert(stops@[k as int].1@[j as int].name@ == shop@);
                    return true;
                }
                j += 1;
            }
        }
        k += 1;
    }
    false
}

fn find_last_dish(dishes: &Vec<TakeawayDish>, name: &String) -> (r: Option<usize>)
    ensures
        match r {
            Some(i) => i < dishes@.len() && last_dish(dishes@, name@) == Some(dishes@[i as int]),
            None => last_dish(dishes@, name@) is None,
        },
{
    let mut k: usize = dishes.len();
    assert(dishes@.take(k as int) =~= dishes@);
    while k > 0
        invariant
            k <= dishes@.len(),
            last_dish(dishes@, name@) == last_dish(dishes@.take(k as int), name@),
        decreases k,
    {
        proof {
            assert(dishes@.take(k as int).drop_last() =~= dishes@.take(k - 1));
            assert(dishes@.take(k as int).last() == dishes@[k - 1]);
        }
        if dishes[k - 1].name == *name {
            return Some(k - 1);
        }
        k -= 1;
    }
    proof {
        assert(dishes@.take(0) =~= Seq::<TakeawayDish>::empty());
    }
    None
}

fn find_shop_dish(shops: &Vec<TakeawayShop>, shop: &String, name: &String) -> (r: Option<(usize, usize)>)
    ensures
        match r {
            Some((a, b)) => a < shops@.len() && b < shops@[a as int].dishes@.len() && last_shop_dish(
                shops@,
                shop@,
                name@,
            ) == Some(shops@[a as int].dishes@[b as int]),
            None => last_shop_dish(shops@, shop@, name@) is None,
        },
{
    let mut k: usize = shops.len();
    assert(shops@.take(k as int) =~= shops@);
    while k > 0
        invariant
            k <= shops@.len(),
            last_shop_dish(shops@, shop@, name@) == last_shop_dish(shops@.take(k as int), shop@, name@),
        decreases k,
    {
        proof {
            assert(shops@.take(k as int).drop_last() =~= shops@.take(k - 1));
            assert(shops@.take(k as int).last() == shops@[k - 1]);
        }
        if shops[k - 1].name == *shop {
            match find_last_dish(&shops[k - 1].dishes, name) {
                Some(b) => {
                    return Some((k - 1, b));
                },
                None => {},
            }
        }
        k -= 1;
    }
    proof {
        assert(shops@.take(0) =~= Seq::<TakeawayShop>::empty());
    }
    None
}

fn find_takeaway_dish(stops: &Vec<(Stop, Vec<TakeawayShop>)>, st: u64, shop: &String, name: &String) -> (r:
    Option<TakeawayDish>)
    ensures
        r == takeaway_dish(stops@, st, shop@, name@),
{
    let mut k: usize = stops.len();
    assert(stops@.take(k as int) =~= stops@);
    while k > 0
        invariant
            k <= stops@.len(),
            takeaway_dish(stops@, st, shop@, name@) == takeaway_dish(stops@.take(k as int), st, shop@, name@),
        decreases k,
    {
        proof {
            assert(stops@.take(k as int).drop_last() =~= stops@.take(k - 1));
            assert(stops@.take(k as int).last() == stops@[k - 1]);
        }
        if stops[k - 1].0.station_id == st {
            match find_shop_dish(&stops[k - 1].1, shop, name) {
                Some((a, b)) => {
                    let d = &stops[k - 1].1[a].dishes[b];
                    return Some(TakeawayDish { id: d.id, name: d.name.clone(), unit_price: d.unit_price });
                },
                None => {},
            }
        }
        k -= 1;
    }
    proof {
        assert(stops@.take(0) =~= Seq::<(Stop, Vec<TakeawayShop>)>::empty());
    }
    None
}

/// Checks the takeaway requests of an order against the shops at the stops
/// of the train's route (`shops_by_stop`), the stations by name and the
/// passengers of the user; a meal is due when the train reaches its
/// station, in seconds of local time from day zero.
pub fn verify_takeaway_order_request(
    train_id: u64,
    date: i32,
    origin_departure_time: i32,
    shops_by_stop: &Vec<(Stop, Vec<TakeawayShop>)>,
    station_name_to_id: &Vec<(String, u64)>,
    personal_uuid_to_id: &Vec<(u128, u64)>,
    request_list: &Vec<TakeawayOrderRequest>,
) -> (r: Result<Vec<VerifiedTakeawayOrderRequest>, MealRequestError>)
    requires
        forall|k: int|
            0 <= k < request_list@.len() ==> takeaway_request_fits(
                shops_by_stop@,
                station_name_to_id@,
                personal_uuid_to_id@,
                origin_departure_time,
                #[trigger] request_list@[k],
            ),
    ensures
        match takeaway_requests_check(
            shops_by_stop@,
            station_name_to_id@,
            personal_uuid_to_id@,
            train_id,
            date,
            origin_departure_time,
            request_list@,
        ) {
            Err(e) => r == Err::<Vec<VerifiedTakeawayOrderRequest>, _>(e),
            Ok(v) => r matches Ok(w) && w@ == v,
        },
        r matches Ok(w) ==> w@.len() == request_list@.len() && forall|k: int|
            0 <= k < w@.len() ==> valid_takeaway_order(
                #[trigger] w@[k],
                request_list@[k],
                shops_by_stop@,
                station_name_to_id@,
                personal_uuid_to_id@,
                train_id,
                date,
                origin_departure_time,
            ),
{
    let ghost stops = shops_by_stop@;
    let ghost stations = station_name_to_id@;
    let ghost people = personal_uuid_to_id@;
    let mut result: Vec<VerifiedTakeawayOrderRequest> = Vec::new();
    let mut i: usize = 0;
    while i < request_list.len()
        invariant
            stops == shops_by_stop@,
            stations == station_name_to_id@,
            people == personal_uuid_to_id@,
            i <= request_list@.len(),
            forall|k: int|
                0 <= k < request_list@.len() ==> takeaway_request_fits(
                    stops,
                    stations,
                    people,
                    origin_departure_time,
                    #[trigger] request_list@[k],
                ),
            takeaway_requests_check(stops, stations, people, train_id, date, origin_departure_time, request_list@.take(i as int))
                == Ok::<Seq<VerifiedTakeawayOrderRequest>, MealRequestError>(result@),
        decreases request_list@.len() - i,
    {
        let req = &request_list[i];
        proof {
            assert(request_list@.take(i + 1).drop_last() =~= request_list@.take(i as int));
            assert(request_list@.take(i + 1).last() == request_list@[i as int]);
            assert(request_list@[i as int] == *req);
            assert(takeaway_request_fits(stops, stations, people, origin_departure_time, *req));
            lemma_person_index(people, req.personal_id);
        }
        let st = match find_station(station_name_to_id, &req.station) {
            Some(st) => st,
            None => {
                proof {
                    lemma_takeaway_check_stops(stops, stations, people, train_id, date, origin_departure_time, request_list@, i + 1);
                }
                return Err(
                    MealRequestError::Service(
                        TrainDishApplicationServiceError::InvalidTakeawayStation(req.station.clone()),
                    ),
                );
            },
        };
        let arrival = match find_arrival(shops_by_stop, st) {
            Some(a) => a,
            None => {
                proof {
                    lemma_takeaway_check_stops(stops, stations, people, train_id, date, origin_departure_time, request_list@, i + 1);
                }
                return Err(
                    MealRequestError::Service(
                        TrainDishApplicationServiceError::InvalidTakeawayStation(req.station.clone()),
                    ),
                );
            },
        };
        if !has_shop(shops_by_stop, st, &req.shop_name) {
            proof {
                lemma_takeaway_check_stops(stops, stations, people, train_id, date, origin_departure_time, request_list@, i + 1);
            }
            return Err(
                MealRequestError::Service(
                    TrainDishApplicationServiceError::InvalidTakeawayShopName(req.shop_name.clone()),
                ),
            );
        }
        let dish = match find_takeaway_dish(shops_by_stop, st, &req.shop_name, &req.name) {
            Some(d) => d,
            None => {
                proof {
                    lemma_takeaway_check_stops(stops, stations, people, train_id, date, origin_departure_time, request_list@, i + 1);
                }
                return Err(
                    MealRequestError::Service(
                        TrainDishApplicationServiceError::InvalidDishName(req.name.clone()),
                    ),
                );
            },
        };
        let p = match find_person(personal_uuid_to_id, req.personal_id) {
            Some(p) => p,
            None => {
                proof {
                    lemma_takeaway_check_stops(stops, stations, people, train_id, date, origin_departure_time, request_list@, i + 1);
                }
                return Err(MealRequestError::InvalidPersonalId(req.personal_id));
            },
        };
        let off: u32 = if origin_departure_time >= 0 {
            origin_departure_time as u32
        } else {
            (origin_departure_time as i64 + 0x1_0000_0000i64) as u32
        };
        let due = off + arrival;
        let active_time = date as i64 * 86400 + due as i64;
        if req.amount == 0 {
            proof {
                lemma_takeaway_check_stops(stops, stations, people, train_id, date, origin_departure_time, request_list@, i + 1);
            }
            return Err(MealRequestError::ZeroAmount);
        }
        let dish_id = match dish.id {
            Some(id) => id,
            None => 0,
        };
        result.push(
            VerifiedTakeawayOrderRequest {
                takeaway_dish_id: dish_id,
                train_id,
                station_id: st,
                personal_id: personal_uuid_to_id[p].1,
                unit_price: dish.unit_price,
                amount: Amount { mantissa: req.amount as i128, scale: 0 },
                active_time,
            },
        );
        i += 1;
    }
    proof {
        assert(request_list@.take(i as int) =~= request_list@);
        law_takeaway_orders_are_due_at_the_station(
            shops_by_stop@,
            station_name_to_id@,
            personal_uuid_to_id@,
            train_id,
            date,
            origin_departure_time,
            request_list@,
            result@,
        );
    }
    Ok(result)
}

/// A stored passenger record: its row id, its UUID and the user it belongs to.
#[derive(Debug, Clone, Copy, PartialEq, Eq)]
pub struct PersonalInfoRow {
    pub id: i32,
    pub uuid: u128,
    pub user_id: i32,
}

/// The passengers of user `user_id`, as (UUID, id) pairs in stored order.
pub open spec fn passengers(user_id: u64, infos: Seq<PersonalInfoRow>) -> Seq<(u128, u64)>
    decreases infos.len(),
{
    if infos.len() == 0 {
        Seq::empty()
    } else {
        let rest = passengers(user_id, infos.drop_last());
        let x = infos.last();
        if x.user_id == user_id as i32 {
            rest.push((x.uuid, x.id as u64))
        } else {
            rest
        }
    }
}

/// The passengers that user `user_id` may order meals for.
pub fn passengers_of(user_id: u64, infos: &Vec<PersonalInfoRow>) -> (r: Vec<(u128, u64)>)
    ensures
        r@ == passengers(user_id, infos@),
{
    let mut r: Vec<(u128, u64)> = Vec::new();
    let uid: i32 = user_id as i32;
    let mut i: usize = 0;
    while i < infos.len()
        invariant
            i <= infos@.len(),
            uid == user_id as i32,
            r@ == passengers(user_id, infos@.take(i as int)),
        decreases infos@.len() - i,
    {
        proof {
            assert(infos@.take(i + 1).drop_last() =~= infos@.take(i as int));
            assert(infos@.take(i + 1).last() == infos@[i as int]);
        }
        let x = infos[i];
        if x.user_id == uid {
            r.push((x.uuid, x.id as u64));
        }
        i += 1;
    }
    proof {
        assert(infos@.take(i as int) =~= infos@);
    }
    r
}

/// A new meal order: its common part, the train ticket it goes with, the
/// dish or takeaway dish ordered and the passenger it is for.
#[derive(Debug, Clone, Copy, PartialEq, Eq)]
pub struct MealOrder {
    pub base: BaseOrder,
    pub train_order_id: u64,
    pub item_id: u64,
    pub personal_id: u64,
}

/// An unpaid meal order, active and complete at `active_time`.
pub open spec fn unpaid_meal_order(
    uuid: u128,
    order_type: OrderType,
    train_order_id: u64,
    item_id: u64,
    personal_id: u64,
    unit_price: Amount,
    amount: Amount,
    active_time: i64,
) -> MealOrder {
    MealOrder {
        base: BaseOrder {
            uuid,
            order_status: OrderStatus::Unpaid,
            order_type,
            active_time,
            complete_time: active_time,
            unit_price,
            amount,
            already_refund: false,
        },
        train_order_id,
        item_id,
        personal_id,
    }
}

/// The orders for checked dish and takeaway requests, dishes first, the
/// `i`-th order taking the `i`-th UUID.
pub open spec fn meal_orders_for(
    dishes: Seq<VerifiedDishOrderRequest>,
    takeaways: Seq<VerifiedTakeawayOrderRequest>,
    train_order_id: u64,
    uuids: Seq<u128>,
) -> Seq<MealOrder> {
    Seq::new(
        dishes.len() + takeaways.len(),
        |i: int|
            if i < dishes.len() {
                let d = dishes[i];
                unpaid_meal_order(
                    uuids[i],
                    OrderType::Dish,
                    train_order_id,
                    d.dish_id,
                    d.personal_id,
                    d.unit_price,
                    d.amount,
                    d.active_time,
                )
            } else {
                let t = takeaways[i - dishes.len()];
                unpaid_meal_order(
                    uuids[i],
                    OrderType::Takeaway,
                    train_order_id,
                    t.takeaway_dish_id,
                    t.personal_id,
                    t.unit_price,
                    t.amount,
                    t.active_time,
                )
            },
    )
}

/// Builds the orders for checked dish and takeaway requests, with the given
/// order UUIDs.
pub fn meal_orders(
    dish_requests: &Vec<VerifiedDishOrderRequest>,
    takeaway_requests: &Vec<VerifiedTakeawayOrderRequest>,
    train_order_id: u64,
    uuids: &Vec<u128>,
) -> (r: Vec<MealOrder>)
    requires
        uuids@.len() == dish_requests@.len() + takeaway_requests@.len(),
    ensures
        r@ == meal_orders_for(dish_requests@, takeaway_requests@, train_order_id, uuids@),
{
    let ghost want = meal_orders_for(dish_requests@, takeaway_requests@, train_order_id, uuids@);
    let mut r: Vec<MealOrder> = Vec::new();
    let mut i: usize = 0;
    while i < dish_requests.len()
        invariant
            i <= dish_requests@.len(),
            uuids@.len() == dish_requests@.len() + takeaway_requests@.len(),
            want == meal_orders_for(dish_requests@, takeaway_requests@, train_order_id, uuids@),
            r@ == want.take(i as int),
        decreases dish_requests@.len() - i,
    {
        let d = dish_requests[i];
        r.push(
            MealOrder {
                base: BaseOrder {
                    uuid: uuids[i],
                    order_status: OrderStatus::Unpaid,
                    order_type: OrderType::Dish,
                    active_time: d.active_time,
                    complete_time: d.active_time,
                    unit_price: d.unit_price,
                    amount: d.amount,
                    already_refund: false,
                },
                train_order_id,
                item_id: d.dish_id,
                personal_id: d.personal_id,
            },
        );
        proof {
            assert(r@ =~= want.take(i + 1));
        }
        i += 1;
    }
    let n_uuids: usize = uuids.len();
    let mut j: usize = 0;
    while j < takeaway_requests.len()
        invariant
            i == dish_requests@.len(),
            n_uuids == uuids@.len(),
            j <= takeaway_requests@.len(),
            uuids@.len() == dish_requests@.len() + takeaway_requests@.len(),
            want == meal_orders_for(dish_requests@, takeaway_requests@, train_order_id, uuids@),
            r@ == want.take(i + j),
        decreases takeaway_requests@.len() - j,
    {
        let t = takeaway_requests[j];
        r.push(
            MealOrder {
                base: BaseOrder {
                    uuid: uuids[i + j],
                    order_status: OrderStatus::Unpaid,
                    order_type: OrderType::Takeaway,
                    active_time: t.active_time,
                    complete_time: t.active_time,
                    unit_price: t.unit_price,
                    amount: t.amount,
                    already_refund: false,
                },
                train_order_id,
                item_id: t.takeaway_dish_id,
                personal_id: t.personal_id,
            },
        );
        proof {
            assert(r@ =~= want.take(i + j + 1));
        }
        j += 1;
    }
    proof {
        assert(want.take(i + j) =~= want);
    }
    r
}

/// A random (version 4, RFC 4122 variant) UUID: version nibble 4, variant
/// bits `10`.
pub open spec fn is_v4_uuid(u: u128) -> bool {
    (u >> 76u128) & 0xfu128 == 4 && (u >> 62u128) & 0x3u128 == 2
}

/// Draws a fresh order UUID with `uuid::Uuid::new_v4`; claimed, as its
/// source sets them: the version and variant bits of a random UUID. The
/// other bits are random.
#[verifier::external_body]
fn random_order_uuid() -> (u: u128)
    ensures
        is_v4_uuid(u),
{
    uuid::Uuid::new_v4().as_u128()
}

/// Places the orders for checked dish and takeaway requests, each under a
/// fresh random UUID: the orders are those of `meal_orders` for some UUIDs.
pub fn place_meal_orders(
    dish_requests: &Vec<VerifiedDishOrderRequest>,
    takeaway_requests: &Vec<VerifiedTakeawayOrderRequest>,
    train_order_id: u64,
) -> (r: Vec<MealOrder>)
    requires
        dish_requests@.len() + takeaway_requests@.len() <= usize::MAX,
    ensures
        exists|uuids: Seq<u128>|
            uuids.len() == dish_requests@.len() + takeaway_requests@.len() && (forall|k: int|
                0 <= k < uuids.len() ==> is_v4_uuid(#[trigger] uuids[k])) && r@ == #[trigger] meal_orders_for(
                dish_requests@,
                takeaway_requests@,
                train_order_id,
                uuids,
            ),
{
    let n: usize = dish_requests.len() + takeaway_requests.len();
    let mut uuids: Vec<u128> = Vec::new();
    while uuids.len() < n
        invariant
            uuids@.len() <= n,
            forall|k: int| 0 <= k < uuids@.len() ==> is_v4_uuid(#[trigger] uuids@[k]),
        decreases n - uuids@.len(),
    {
        uuids.push(random_order_uuid());
    }
    meal_orders(dish_requests, takeaway_requests, train_order_id, &uuids)
}

/// A new transaction to open for meal orders: the user's, over the orders,
/// and not atomic.
#[derive(Debug, Clone)]
pub struct MealTransactionRequest {
    pub user_id: u64,
    pub orders: Vec<MealOrder>,
    pub atomic: bool,
}

/// The transaction to open for the user's new meal orders: not atomic, so
/// that each order stands on its own.
pub fn meal_transaction_request(user_id: u64, orders: Vec<MealOrder>) -> (r: MealTransactionRequest)
    ensures
        r.user_id == user_id,
        r.orders@ == orders@,
        !r.atomic,
{
    MealTransactionRequest { user_id, orders, atomic: false }
}

/// What `chrono::DateTime::parse_from_rfc3339` reads from a text: the UTC
/// instant in seconds and the UTC offset in seconds, or `None` when the text
/// is not an RFC 3339 date and time.
pub uninterp spec fn rfc3339_parsed(text: Seq<char>) -> Option<(i64, i32)>;

/// Reads an RFC 3339 date and time with `chrono::DateTime::parse_from_rfc3339`
/// (`timestamp` and `offset().local_minus_utc()` of the result); claimed: the
/// named reading of the text.
#[verifier::external_body]
fn parse_rfc3339(text: &String) -> (r: Option<(i64, i32)>)
    ensures
        r == rfc3339_parsed(text@),
{
    match chrono::DateTime::parse_from_rfc3339(text) {
        Ok(d) => Some((d.timestamp(), d.offset().local_minus_utc())),
        Err(_) => None,
    }
}

/// The UTC instant of midnight, in the UTC offset `offset`, of the day on
/// which the instant `instant` falls there.
pub open spec fn local_day_start(instant: int, offset: int) -> int {
    ((instant + offset) / 86400) * 86400 - offset
}

/// The start of the local day of an instant, in the given UTC offset;
/// `None` when a step of the computation leaves the range of `i64`.
pub fn day_start_of(instant: i64, offset: i32) -> (r: Option<i64>)
    ensures
        match r {
            Some(d) => d == local_day_start(instant as int, offset as int) && i64::MIN <= instant + offset
                <= i64::MAX && i64::MIN <= d + offset <= i64::MAX,
            None => !(i64::MIN <= instant + offset <= i64::MAX && i64::MIN <= local_day_start(
                instant as int,
                offset as int,
            ) + offset <= i64::MAX && i64::MIN <= local_day_start(instant as int, offset as int)
                <= i64::MAX),
        },
{
    let local = match instant.checked_add(offset as i64) {
        Some(l) => l,
        None => return None,
    };
    let days = match local.checked_div_euclid(86400) {
        Some(q) => q,
        None => return None,
    };
    let midnight = match days.checked_mul(86400) {
        Some(m) => m,
        None => return None,
    };
    midnight.checked_sub(offset as i64)
}

/// The start of the local day of a train's origin departure, given as an
/// RFC 3339 text: midnight of its date in its own UTC offset, from which
/// lunch (12:00) and dinner (18:00) are counted. Refused when the text is not
/// an RFC 3339 date and time.
pub fn dish_day_start(origin_departure_time: &String) -> (r: Result<i64, MealRequestError>)
    ensures
        match rfc3339_parsed(origin_departure_time@) {
            None => r == Err::<i64, _>(MealRequestError::InvalidDepartureTime),
            Some((t, off)) => match r {
                Ok(d) => d == local_day_start(t as int, off as int) && i64::MIN <= t + off <= i64::MAX
                    && i64::MIN <= d + off <= i64::MAX,
                Err(e) => e == MealRequestError::InvalidDepartureTime && !(i64::MIN <= t + off <= i64::MAX
                    && i64::MIN <= local_day_start(t as int, off as int) + off <= i64::MAX && i64::MIN
                    <= local_day_start(t as int, off as int) <= i64::MAX),
            },
        },
{
    match parse_rfc3339(origin_departure_time) {
        None => Err(MealRequestError::InvalidDepartureTime),
        Some((t, off)) => match day_start_of(t, off) {
            Some(d) => Ok(d),
            None => Err(MealRequestError::InvalidDepartureTime),
        },
    }
}

/// Checks dish order requests for a train whose origin departure is given
/// as an RFC 3339 text: each request is served on the local day of that
/// departure, in its own UTC offset (lunch at 12:00, dinner at 18:00).
/// Refused with `InvalidDepartureTime` when the text is not an RFC 3339 date
/// and time or its day cannot be computed in `i64` seconds.
pub fn verify_dish_orders_departing(
    train_id: u64,
    origin_departure_time: &String,
    dishes: &Vec<Dish>,
    personal_uuid_to_id: &Vec<(u128, u64)>,
    request_list: &Vec<DishOrderRequest>,
) -> (r: Result<Vec<VerifiedDishOrderRequest>, MealRequestError>)
    requires
        forall|k: int|
            0 <= k < request_list@.len() && dish_named(dishes@, (#[trigger] request_list@[k]).name@) >= 0
                ==> dishes@[dish_named(dishes@, request_list@[k].name@)].id is Some,
    ensures
        match rfc3339_parsed(origin_departure_time@) {
            None => r == Err::<Vec<VerifiedDishOrderRequest>, _>(MealRequestError::InvalidDepartureTime),
            Some((t, off)) => {
                let d = local_day_start(t as int, off as int);
                if i64::MIN <= t + off <= i64::MAX && i64::MIN <= d + off <= i64::MAX && i64::MIN <= d
                    && d + 18 * 3600 <= i64::MAX {
                    match dish_requests_check(dishes@, personal_uuid_to_id@, train_id, d as i64, request_list@) {
                        Err(e) => r == Err::<Vec<VerifiedDishOrderRequest>, _>(e),
                        Ok(v) => r matches Ok(w) && w@ == v,
                    }
                } else {
                    r == Err::<Vec<VerifiedDishOrderRequest>, _>(MealRequestError::InvalidDepartureTime)
                }
            },
        },
{
    let day_start = match dish_day_start(origin_departure_time) {
        Ok(d) => d,
        Err(e) => return Err(e),
    };
    if day_start > i64::MAX - 18 * 3600 {
        return Err(MealRequestError::InvalidDepartureTime);
    }
    verify_dish_order_request(train_id, day_start, dishes, personal_uuid_to_id, request_list)
}

} // verus!
