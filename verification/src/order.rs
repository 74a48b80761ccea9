//! Orders as shown to users, and the periodic advance of their status.
use std::sync::Arc;
use uuid::Uuid;
use vstd::prelude::*;

use crate::domain::{OrderStatus, OrderType};
use crate::hotel::HotelDateRange;
use crate::money::{amount_ok, amount_to_i32, amount_trunc, Amount};
use crate::train_seat::SeatLocationInfo;

verus! {

/// The part of an order that every kind of order has.
#[derive(Debug, Clone, Copy, PartialEq, Eq)]
pub struct BaseOrder {
    pub uuid: u128,
    pub order_status: OrderStatus,
    pub order_type: OrderType,
    pub active_time: i64,
    pub complete_time: i64,
    pub unit_price: Amount,
    pub amount: Amount,
    pub already_refund: bool,
}

/// An order may be cancelled by its user: it is ongoing and not refunded.
pub open spec fn can_cancel(status: OrderStatus, already_refund: bool) -> bool {
    !already_refund && status == OrderStatus::Ongoing
}

/// Whether the user may cancel the order.
pub fn calculate_can_cancel(order: &BaseOrder) -> (r: bool)
    ensures
        r == can_cancel(order.order_status, order.already_refund),
{
    !order.already_refund && order.order_status == OrderStatus::Ongoing
}

/// Why an order cannot be cancelled, as shown to the user (`None` when it can).
pub open spec fn reason_text(status: OrderStatus, already_refund: bool) -> Option<Seq<char>> {
    if already_refund {
        Some("已退款"@)
    } else {
        match status {
            OrderStatus::Unpaid => Some("订单未支付"@),
            OrderStatus::Paid => Some("订单正在处理中"@),
            OrderStatus::Ongoing => None,
            OrderStatus::Active => Some("订单正在进行中"@),
            OrderStatus::Completed => Some("订单已完成"@),
            OrderStatus::Failed => Some("订单失败"@),
            OrderStatus::Cancelled => Some("订单已取消"@),
        }
    }
}

/// Why an order in this status cannot be cancelled (`None` when it can).
pub fn get_reason(status: OrderStatus, already_refund: bool) -> (r: Option<String>)
    ensures
        match r {
            None => reason_text(status, already_refund) is None,
            Some(s) => reason_text(status, already_refund) == Some(s@),
        },
{
    if already_refund {
        return Some("已退款".to_owned());
    }
    match status {
        OrderStatus::Unpaid => Some("订单未支付".to_owned()),
        OrderStatus::Paid => Some("订单正在处理中".to_owned()),
        OrderStatus::Ongoing => None,
        OrderStatus::Active => Some("订单正在进行中".to_owned()),
        OrderStatus::Completed => Some("订单已完成".to_owned()),
        OrderStatus::Failed => Some("订单失败".to_owned()),
        OrderStatus::Cancelled => Some("订单已取消".to_owned()),
    }
}

/// An order can be cancelled exactly when no reason against it is shown.
pub proof fn law_reason_shown_iff_not_cancellable(status: OrderStatus, already_refund: bool)
    ensures
        can_cancel(status, already_refund) <==> reason_text(status, already_refund) is None,
{
}

/// The lowercase hexadecimal digit of `n` (0 to 15).
pub open spec fn hex_digit(n: u128) -> char {
    if n < 10 {
        (48 + n) as char
    } else {
        (87 + n) as char
    }
}

/// The `k`-th hexadecimal digit of `id`, most significant first (0 to 31).
pub open spec fn uuid_nibble(id: u128, k: int) -> u128 {
    (id >> ((124 - 4 * k) as u128)) & 0xf
}

/// The digit written at position `i` (0 to 35) of a hyphenated UUID:
/// positions 8, 13, 18 and 23 hold the hyphens.
pub open spec fn uuid_digit_index(i: int) -> int {
    if i < 8 {
        i
    } else if i < 13 {
        i - 1
    } else if i < 18 {
        i - 2
    } else if i < 23 {
        i - 3
    } else {
        i - 4
    }
}

/// The hyphenated lowercase text of a UUID: its 32 hexadecimal digits, most
/// significant first, in groups of 8, 4, 4, 4 and 12 joined by hyphens.
pub open spec fn uuid_text(id: u128) -> Seq<char> {
    Seq::new(
        36,
        |i: int|
            if i == 8 || i == 13 || i == 18 || i == 23 {
                '-'
            } else {
                hex_digit(uuid_nibble(id, uuid_digit_index(i)))
            },
    )
}

/// Formats a UUID with `uuid::Uuid::to_string` (its `Display`, fmt.rs of
/// the `uuid` crate); claimed: the hyphenated lowercase text above.
#[verifier::external_body]
fn uuid_to_string(id: u128) -> (s: String)
    ensures
        s@ == uuid_text(id),
{
    Uuid::from_u128(id).to_string()
}

/// The kind of an order as shown to users.
pub open spec fn order_type_text(t: OrderType) -> Seq<char> {
    match t {
        OrderType::Train => "train"@,
        OrderType::Hotel => "hotel"@,
        OrderType::Dish => "dish"@,
        OrderType::Takeaway => "takeaway"@,
    }
}

fn order_type_name(t: OrderType) -> (s: String)
    ensures
        s@ == order_type_text(t),
{
    match t {
        OrderType::Train => "train".to_owned(),
        OrderType::Hotel => "hotel".to_owned(),
        OrderType::Dish => "dish".to_owned(),
        OrderType::Takeaway => "takeaway".to_owned(),
    }
}

/// The fields that every order shows, but its unit price.
#[derive(Debug, Clone)]
pub struct BaseOrderFields {
    pub order_id: String,
    pub status: String,
    pub amount: i32,
    pub can_cancel: bool,
    pub reason: Option<String>,
    pub order_type: String,
}

/// The name under which an order status is shown.
pub open spec fn order_status_text(s: OrderStatus) -> Seq<char> {
    match s {
        OrderStatus::Unpaid => "Unpaid"@,
        OrderStatus::Paid => "Paid"@,
        OrderStatus::Ongoing => "Ongoing"@,
        OrderStatus::Active => "Active"@,
        OrderStatus::Completed => "Completed"@,
        OrderStatus::Failed => "Failed"@,
        OrderStatus::Cancelled => "Cancelled"@,
    }
}

/// The name under which an order status is shown.
pub fn order_status_name(s: OrderStatus) -> (r: String)
    ensures
        r@ == order_status_text(s),
{
    match s {
        OrderStatus::Unpaid => "Unpaid".to_owned(),
        OrderStatus::Paid => "Paid".to_owned(),
        OrderStatus::Ongoing => "Ongoing".to_owned(),
        OrderStatus::Active => "Active".to_owned(),
        OrderStatus::Completed => "Completed".to_owned(),
        OrderStatus::Failed => "Failed".to_owned(),
        OrderStatus::Cancelled => "Cancelled".to_owned(),
    }
}

/// `f` holds the fields that every order shows: its id, its status, its
/// amount as a whole number (0 when it does not fit in an `i32`), whether it
/// can be cancelled, why not, and its kind.
pub open spec fn shows_order(f: BaseOrderFields, order: BaseOrder) -> bool {
    &&& f.order_id@ == uuid_text(order.uuid)
    &&& f.status@ == order_status_text(order.order_status)
    &&& f.amount == (if i32::MIN <= amount_trunc(order.amount) <= i32::MAX {
        amount_trunc(order.amount) as i32
    } else {
        0
    })
    &&& f.can_cancel == can_cancel(order.order_status, order.already_refund)
    &&& match f.reason {
        None => reason_text(order.order_status, order.already_refund) is None,
        Some(s) => reason_text(order.order_status, order.already_refund) == Some(s@),
    }
    &&& f.order_type@ == order_type_text(order.order_type)
}

/// The fields that every order shows.
pub fn base_order_fields(order: &BaseOrder) -> (f: BaseOrderFields)
    requires
        amount_ok(order.amount),
    ensures
        shows_order(f, *order),
{
    let amount = match amount_to_i32(&order.amount) {
        Some(n) => n,
        None => 0,
    };
    BaseOrderFields {
        order_id: uuid_to_string(order.uuid),
        status: order_status_name(order.order_status),
        amount,
        can_cancel: calculate_can_cancel(order),
        reason: get_reason(order.order_status, order.already_refund),
        order_type: order_type_name(order.order_type),
    }
}

/// Where the seat of a train order is, as shown with the order.
#[derive(Debug, Clone)]
pub struct SeatFields {
    pub carriage: i32,
    pub row: i32,
    pub location: String,
    pub seat_type_name: String,
}

/// Makes a one-character string with `String::from(char)`; claimed, as std
/// documents it: the string holds exactly that character.
#[verifier::external_body]
fn char_string(c: char) -> (s: String)
    ensures
        s@ == seq![c],
{
    String::from(c)
}

/// The seat of a train order as shown: its carriage, row and location
/// letter, with the name of its seat type; `None` for an order that holds
/// no seat yet.
pub fn seat_fields(seat: Option<SeatLocationInfo>, seat_type_name: String) -> (r: Option<SeatFields>)
    ensures
        match seat {
            None => r is None,
            Some(l) => r matches Some(f) && f.carriage == l.carriage && f.row == l.row && f.location@ == seq![
                l.location,
            ] && f.seat_type_name@ == seat_type_name@,
        },
{
    match seat {
        None => None,
        Some(l) => Some(
            SeatFields { carriage: l.carriage, row: l.row, location: char_string(l.location), seat_type_name },
        ),
    }
}

/// The text of the date with day number `day` (days from the first day of
/// the common era), as `chrono` writes a `NaiveDate`.
pub uninterp spec fn date_text(day: i32) -> Seq<char>;

/// Writes a day number as a date with
/// `chrono::NaiveDate::from_num_days_from_ce_opt` and `to_string`; claimed:
/// the named text of the date, and a date for every day of the years 1 to
/// 9999 (chrono covers far more). What chrono gives outside those years is
/// not stated.
#[verifier::external_body]
fn date_string(day: i32) -> (r: Option<String>)
    ensures
        r matches Some(t) ==> t@ == date_text(day),
        1 <= day <= 3_652_059 ==> r is Some,
{
    chrono::NaiveDate::from_num_days_from_ce_opt(day).map(|d| d.to_string())
}

/// The first and last day of a hotel stay as shown with the order; `None`
/// when a day cannot be written as a date.
pub fn stay_dates(range: HotelDateRange) -> (r: Option<(String, String)>)
    ensures
        r matches Some(p) ==> p.0@ == date_text(range.begin_date) && p.1@ == date_text(range.end_date),
        1 <= range.begin_date <= 3_652_059 && 1 <= range.end_date <= 3_652_059 ==> r is Some,
{
    match (date_string(range.begin_date), date_string(range.end_date)) {
        (Some(b), Some(e)) => Some((b, e)),
        _ => None,
    }
}

/// What the store tells about a train order, as shown with it: the train,
/// the stations and times of the ride and of the whole run, and the
/// passenger's name.
#[derive(Debug, Clone)]
pub struct TrainRelated {
    pub train_number: String,
    pub departure_station: String,
    pub arrival_station: String,
    pub departure_time: String,
    pub arrival_time: String,
    pub origin_station: String,
    pub terminal_station: String,
    pub origin_departure_time: String,
    pub terminal_arrival_time: String,
    pub name: String,
}

/// A train order as shown to its user.
#[derive(Debug, Clone)]
pub struct TrainOrderView {
    pub base: BaseOrderFields,
    pub related: TrainRelated,
    pub seat: Option<SeatFields>,
}

/// A train order as shown: its common fields, what the store tells about
/// it, and its seat, if it holds one.
pub fn train_order_view(
    order: &BaseOrder,
    related: TrainRelated,
    seat: Option<SeatLocationInfo>,
    seat_type_name: String,
) -> (r: TrainOrderView)
    requires
        amount_ok(order.amount),
    ensures
        shows_order(r.base, *order),
        r.related == related,
        match seat {
            None => r.seat is None,
            Some(l) => r.seat matches Some(f) && f.carriage == l.carriage && f.row == l.row && f.location@
                == seq![l.location] && f.seat_type_name@ == seat_type_name@,
        },
{
    TrainOrderView { base: base_order_fields(order), related, seat: seat_fields(seat, seat_type_name) }
}

/// What the store tells about a hotel order: the hotel, the guest's name
/// and the room type.
#[derive(Debug, Clone)]
pub struct HotelRelated {
    pub hotel_id: String,
    pub name: String,
    pub room_type: String,
    pub hotel_name: String,
}

/// A hotel order as shown to its user.
#[derive(Debug, Clone)]
pub struct HotelOrderView {
    pub base: BaseOrderFields,
    pub related: HotelRelated,
    pub begin_date: String,
    pub end_date: String,
}

/// A hotel order as shown: its common fields, what the store tells about
/// it, and the first and last day of the stay; `None` when a day cannot be
/// written as a date.
pub fn hotel_order_view(order: &BaseOrder, related: HotelRelated, range: HotelDateRange) -> (r: Option<
    HotelOrderView,
>)
    requires
        amount_ok(order.amount),
    ensures
        match r {
            Some(v) => shows_order(v.base, *order) && v.related == related && v.begin_date@ == date_text(
                range.begin_date,
            ) && v.end_date@ == date_text(range.end_date),
            None => !(1 <= range.begin_date <= 3_652_059 && 1 <= range.end_date <= 3_652_059),
        },
{
    match stay_dates(range) {
        Some((begin_date, end_date)) => Some(
            HotelOrderView { base: base_order_fields(order), related, begin_date, end_date },
        ),
        None => None,
    }
}

/// What the store tells about a dish order: the train and its departure,
/// the meal, the passenger's name and the dish.
#[derive(Debug, Clone)]
pub struct DishRelated {
    pub train_number: String,
    pub departure_time: String,
    pub dish_time: String,
    pub name: String,
    pub dish_name: String,
}

/// A dish order as shown to its user.
#[derive(Debug, Clone)]
pub struct DishOrderView {
    pub base: BaseOrderFields,
    pub related: DishRelated,
}

/// A dish order as shown: its common fields and what the store tells about it.
pub fn dish_order_view(order: &BaseOrder, related: DishRelated) -> (r: DishOrderView)
    requires
        amount_ok(order.amount),
    ensures
        shows_order(r.base, *order),
        r.related == related,
{
    DishOrderView { base: base_order_fields(order), related }
}

/// What the store tells about a takeaway order: the train and its
/// departure, the station and shop, the meal, the passenger's name and the
/// dish.
#[derive(Debug, Clone)]
pub struct TakeawayRelated {
    pub train_number: String,
    pub departure_time: String,
    pub station: String,
    pub dish_time: String,
    pub shop_name: String,
    pub name: String,
    pub takeaway_name: String,
}

/// A takeaway order as shown to its user.
#[derive(Debug, Clone)]
pub struct TakeawayOrderView {
    pub base: BaseOrderFields,
    pub related: TakeawayRelated,
}

/// A takeaway order as shown: its common fields and what the store tells
/// about it.
pub fn takeaway_order_view(order: &BaseOrder, related: TakeawayRelated) -> (r: TakeawayOrderView)
    requires
        amount_ok(order.amount),
    ensures
        shows_order(r.base, *order),
        r.related == related,
{
    TakeawayOrderView { base: base_order_fields(order), related }
}

/// A message to a user: about one of their orders, or about a trip.
#[derive(Debug, Clone)]
pub enum Notify {
    Order { title: String, message_time: i64, order: BaseOrder },
    Trip {
        title: String,
        message_time: i64,
        train_number: String,
        departure_time: i64,
        departure_station: String,
        arrival_station: String,
    },
}

/// A message as shown to the user; an order message shows the order.
#[derive(Debug, Clone)]
pub enum NotifyFields {
    Order { title: String, message_time: i64, order: BaseOrderFields },
    Trip {
        title: String,
        message_time: i64,
        train_number: String,
        departure_time: i64,
        departure_station: String,
        arrival_station: String,
    },
}

/// A message as shown to the user: its title and time, with the order it
/// is about or the trip's train, departure and stations.
pub fn convert_notify(notify: Notify) -> (r: NotifyFields)
    requires
        notify matches Notify::Order { order, .. } ==> amount_ok(order.amount),
    ensures
        match notify {
            Notify::Order { title, message_time, order } => r matches NotifyFields::Order {
                title: t,
                message_time: m,
                order: f,
            } && t@ == title@ && m == message_time && shows_order(f, order),
            Notify::Trip { title, message_time, train_number, departure_time, departure_station, arrival_station } => r
                matches NotifyFields::Trip {
                title: t,
                message_time: m,
                train_number: n,
                departure_time: d,
                departure_station: ds,
                arrival_station: a,
            } && t@ == title@ && m == message_time && n@ == train_number@ && d == departure_time && ds@
                == departure_station@ && a@ == arrival_station@,
        },
{
    match notify {
        Notify::Order { title, message_time, order } => NotifyFields::Order {
            title,
            message_time,
            order: base_order_fields(&order),
        },
        Notify::Trip { title, message_time, train_number, departure_time, departure_station, arrival_station } =>
            NotifyFields::Trip {
            title,
            message_time,
            train_number,
            departure_time,
            departure_station,
            arrival_station,
        },
    }
}

/// The status an order moves to at time `now`: ongoing from its active time,
/// completed from its complete time; `None` before its active time.
pub open spec fn status_at(o: BaseOrder, now: i64) -> Option<OrderStatus> {
    if now >= o.active_time && now < o.complete_time {
        Some(OrderStatus::Ongoing)
    } else if now >= o.complete_time {
        Some(OrderStatus::Completed)
    } else {
        None
    }
}

/// The orders whose status changes at time `now`, with their new status, in order.
pub open spec fn status_updates(orders: Seq<BaseOrder>, now: i64) -> Seq<BaseOrder>
    decreases orders.len(),
{
    if orders.len() == 0 {
        Seq::empty()
    } else {
        let prev = status_updates(orders.drop_last(), now);
        let o = orders.last();
        match status_at(o, now) {
            Some(s) => if s != o.order_status {
                prev.push(BaseOrder { order_status: s, ..o })
            } else {
                prev
            },
            None => prev,
        }
    }
}

/// The active orders to write back at time `now`, with their new status.
pub fn orders_to_update(active_orders: &Vec<BaseOrder>, now: i64) -> (r: Vec<BaseOrder>)
    ensures
        r@ == status_updates(active_orders@, now),
{
    let mut r: Vec<BaseOrder> = Vec::new();
    let mut i: usize = 0;
    while i < active_orders.len()
        invariant
            i <= active_orders@.len(),
            r@ == status_updates(active_orders@.take(i as int), now),
        decreases active_orders@.len() - i,
    {
        proof {
            assert(active_orders@.take(i + 1).drop_last() =~= active_orders@.take(i as int));
            assert(active_orders@.take(i + 1).last() == active_orders@[i as int]);
        }
        let o = active_orders[i];
        let new_status = if now >= o.active_time && now < o.complete_time {
            Some(OrderStatus::Ongoing)
        } else if now >= o.complete_time {
            Some(OrderStatus::Completed)
        } else {
            None
        };
        if let Some(s) = new_status {
            if s != o.order_status {
                r.push(BaseOrder { order_status: s, ..o });
            }
        }
        i += 1;
    }
    proof {
        assert(active_orders@.take(i as int) =~= active_orders@);
    }
    r
}

/// Every order written back has really changed status, to ongoing or
/// completed, and an order written back as ongoing is not past its complete time.
pub proof fn law_status_updates_change_status(orders: Seq<BaseOrder>, now: i64)
    ensures
        forall|k: int|
            0 <= k < status_updates(orders, now).len() ==> {
                let u = #[trigger] status_updates(orders, now)[k];
                &&& u.order_status == OrderStatus::Ongoing || u.order_status == OrderStatus::Completed
                &&& u.order_status == OrderStatus::Ongoing ==> now < u.complete_time
                &&& u.order_status == OrderStatus::Completed ==> now >= u.complete_time
            },
    decreases orders.len(),
{
    if orders.len() > 0 {
        law_status_updates_change_status(orders.drop_last(), now);
    }
}

/// A change of status of one order, as sent to the services that follow orders.
#[derive(Debug, Clone, Copy, PartialEq, Eq)]
pub struct OrderStatusMessage {
    pub order_id: u128,
    pub order_type: OrderType,
    pub new_status: OrderStatus,
}

/// The changes of status of the orders of one transaction.
#[derive(Debug, Clone)]
pub struct OrderStatusMessagePack {
    pub transaction_uuid: u128,
    pub atomic: bool,
    pub messages: Vec<OrderStatusMessage>,
}

/// The message pack announcing that the orders of a transaction move to
/// `new_status`: one message per order, in order.
pub fn status_change_pack(
    transaction_uuid: u128,
    atomic: bool,
    orders: &Vec<BaseOrder>,
    new_status: OrderStatus,
) -> (p: OrderStatusMessagePack)
    ensures
        p.transaction_uuid == transaction_uuid,
        p.atomic == atomic,
        p.messages@.len() == orders@.len(),
        forall|k: int|
            0 <= k < orders@.len() ==> #[trigger] p.messages@[k] == (OrderStatusMessage {
                order_id: orders@[k].uuid,
                order_type: orders@[k].order_type,
                new_status,
            }),
{
    let mut messages: Vec<OrderStatusMessage> = Vec::new();
    let mut i: usize = 0;
    while i < orders.len()
        invariant
            i <= orders@.len(),
            messages@.len() == i,
            forall|k: int|
                0 <= k < i ==> #[trigger] messages@[k] == (OrderStatusMessage {
                    order_id: orders@[k].uuid,
                    order_type: orders@[k].order_type,
                    new_status,
                }),
        decreases orders@.len() - i,
    {
        messages.push(
            OrderStatusMessage {
                order_id: orders[i].uuid,
                order_type: orders[i].order_type,
                new_status,
            },
        );
        i += 1;
    }
    OrderStatusMessagePack { transaction_uuid, atomic, messages }
}

/// The order service; the repository is reached by the caller.
pub struct OrderServiceImpl<R> {
    pub order_repository: Arc<R>,
    pub tz_offset_hour: i32,
}

impl<R> OrderServiceImpl<R> {
    /// A service over the order repository, for a time zone `tz_offset_hour`
    /// hours east of UTC.
    pub fn new(order_repository: Arc<R>, tz_offset_hour: i32) -> (s: Self)
        ensures
            s.order_repository == order_repository,
            s.tz_offset_hour == tz_offset_hour,
    {
        Self { order_repository, tz_offset_hour }
    }
}

/// The orders to book (those now paid) among the messages, in order.
pub open spec fn to_book(messages: Seq<OrderStatusMessage>) -> Seq<u128>
    decreases messages.len(),
{
    if messages.len() == 0 {
        Seq::empty()
    } else if messages.last().new_status == OrderStatus::Paid {
        to_book(messages.drop_last()).push(messages.last().order_id)
    } else {
        to_book(messages.drop_last())
    }
}

/// The orders to cancel (those now cancelled) among the messages, in order.
pub open spec fn to_cancel(messages: Seq<OrderStatusMessage>) -> Seq<u128>
    decreases messages.len(),
{
    if messages.len() == 0 {
        Seq::empty()
    } else if messages.last().new_status == OrderStatus::Cancelled {
        to_cancel(messages.drop_last()).push(messages.last().order_id)
    } else {
        to_cancel(messages.drop_last())
    }
}

/// Splits the status changes that a booking service receives: the orders
/// now paid are to be booked, those now cancelled to be cancelled; other
/// changes are ignored.
pub fn split_status_messages(messages: &Vec<OrderStatusMessage>) -> (r: (Vec<u128>, Vec<u128>))
    ensures
        r.0@ == to_book(messages@),
        r.1@ == to_cancel(messages@),
{
    let mut book: Vec<u128> = Vec::new();
    let mut cancel: Vec<u128> = Vec::new();
    let mut i: usize = 0;
    while i < messages.len()
        invariant
            i <= messages@.len(),
            book@ == to_book(messages@.take(i as int)),
            cancel@ == to_cancel(messages@.take(i as int)),
        decreases messages@.len() - i,
    {
        proof {
            assert(messages@.take(i + 1).drop_last() =~= messages@.take(i as int));
            assert(messages@.take(i + 1).last() == messages@[i as int]);
        }
        let m = messages[i];
        match m.new_status {
            OrderStatus::Paid => book.push(m.order_id),
            OrderStatus::Cancelled => cancel.push(m.order_id),
            _ => {},
        }
        i += 1;
    }
    proof {
        assert(messages@.take(i as int) =~= messages@);
    }
    (book, cancel)
}

/// Order `id` is announced in the messages as moving to `status`.
pub open spec fn announced(messages: Seq<OrderStatusMessage>, id: u128, status: OrderStatus) -> bool {
    exists|j: int| 0 <= j < messages.len() && messages[j].order_id == id && messages[j].new_status == status
}

/// Every order to book was announced as paid and every order to cancel as
/// cancelled; together they are no more than the messages.
pub proof fn law_split_is_by_status(messages: Seq<OrderStatusMessage>)
    ensures
        to_book(messages).len() + to_cancel(messages).len() <= messages.len(),
        forall|k: int|
            0 <= k < to_book(messages).len() ==> announced(messages, #[trigger] to_book(messages)[k], OrderStatus::Paid),
        forall|k: int|
            0 <= k < to_cancel(messages).len() ==> announced(
                messages,
                #[trigger] to_cancel(messages)[k],
                OrderStatus::Cancelled,
            ),
    decreases messages.len(),
{
    if messages.len() > 0 {
        let d = messages.drop_last();
        law_split_is_by_status(d);
        assert forall|k: int|
            0 <= k < to_book(messages).len() implies announced(messages, #[trigger] to_book(messages)[k], OrderStatus::Paid) by {
            if k < to_book(d).len() {
                assert(announced(d, to_book(d)[k], OrderStatus::Paid));
                let j = choose|j: int|
                    0 <= j < d.len() && d[j].order_id == to_book(d)[k] && d[j].new_status == OrderStatus::Paid;
                assert(messages[j] == d[j]);
            } else {
                assert(messages[messages.len() - 1].order_id == to_book(messages)[k]);
            }
        }
        assert forall|k: int|
            0 <= k < to_cancel(messages).len() implies announced(
            messages,
            #[trigger] to_cancel(messages)[k],
            OrderStatus::Cancelled,
        ) by {
            if k < to_cancel(d).len() {
                assert(announced(d, to_cancel(d)[k], OrderStatus::Cancelled));
                let j = choose|j: int|
                    0 <= j < d.len() && d[j].order_id == to_cancel(d)[k] && d[j].new_status
                        == OrderStatus::Cancelled;
                assert(messages[j] == d[j]);
            } else {
                assert(messages[messages.len() - 1].order_id == to_cancel(messages)[k]);
            }
        }
    }
}

} // verus!
