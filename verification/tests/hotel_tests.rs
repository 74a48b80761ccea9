use std::sync::Arc;

use swiftjourney::domain::{OrderStatus, RepositoryError};
use swiftjourney::hotel::{
    Hotel, HotelBookingServiceError, HotelBookingServiceImpl, HotelDateRange, HotelRoomStatus,
    HotelRoomType, OccupiedRoom,
};
use swiftjourney::hotel_booking::{
    check_booking_order, check_cancel_order, plan_hotel_booking, GroupBooking, HotelOrder,
};
use swiftjourney::hotel_query::{get_all_room_status, lowest_price, HotelQueryServiceImpl, RoomStatusError};
use swiftjourney::hotel_rating::{
    comment_count, comment_quota, HotelRating, HotelRatingServiceError, HotelRatingServiceImpl,
};
use swiftjourney::money::Amount;

fn price(m: i128, s: u32) -> Amount {
    Amount { mantissa: m, scale: s }
}

fn room_type(id: u64, capacity: i32, p: Amount) -> HotelRoomType {
    HotelRoomType {
        id: Some(id),
        hotel_id: Some(1),
        room_type_name: format!("type {}", id),
        capacity,
        price: p,
    }
}

fn hotel(types: Vec<HotelRoomType>) -> Hotel {
    Hotel {
        id: Some(1),
        uuid: 11,
        name: "Hotel".to_string(),
        images: vec![],
        total_rating_count: 0,
        total_booking_count: 0,
        room_type_list: types,
        info: String::new(),
    }
}

fn occupied(rt: u64, b: i32, e: i32) -> OccupiedRoom {
    OccupiedRoom {
        id: Some(1),
        hotel_id: 1,
        hotel_room_type_id: rt,
        booking_date_range: HotelDateRange { begin_date: b, end_date: e },
        personal_info_id: 7,
    }
}

fn service() -> HotelBookingServiceImpl<(), (), ()> {
    HotelBookingServiceImpl::new(Arc::new(()), Arc::new(()), Arc::new(()))
}

fn status_of(v: &[(u64, HotelRoomStatus)], id: u64) -> HotelRoomStatus {
    v.iter().find(|e| e.0 == id).unwrap().1
}

#[test]
fn available_room_one_night_taken() {
    // Capacity 2, one room held for the night of day 100: one left over [100, 101].
    let r = service()
        .get_available_room(
            1,
            HotelDateRange { begin_date: 100, end_date: 101 },
            Ok(Some(hotel(vec![room_type(5, 2, price(30000, 2))]))),
            Ok(vec![occupied(5, 100, 101)]),
        )
        .unwrap();
    assert_eq!(r.len(), 1);
    let s = status_of(&r, 5);
    assert_eq!(s.capacity, 2);
    assert_eq!(s.remain_count, 1);
    assert_eq!(s.price, price(30000, 2));
}

#[test]
fn available_room_busiest_day_counts() {
    // Two rooms overlap only on day 102; the stay covers 100..=103.
    let r = service()
        .get_available_room(
            1,
            HotelDateRange { begin_date: 100, end_date: 103 },
            Ok(Some(hotel(vec![room_type(5, 3, price(1, 0)), room_type(6, 4, price(2, 0))]))),
            Ok(vec![occupied(5, 100, 103), occupied(5, 102, 104), occupied(6, 90, 95)]),
        )
        .unwrap();
    assert_eq!(status_of(&r, 5).remain_count, 1);
    assert_eq!(status_of(&r, 6).remain_count, 4);
}

#[test]
fn available_room_errors() {
    let e = service().get_available_room(
        9,
        HotelDateRange { begin_date: 1, end_date: 2 },
        Ok(None),
        Ok(vec![]),
    );
    assert_eq!(e, Err(HotelBookingServiceError::InvalidHotelId(9)));
    let e = service().get_available_room(
        9,
        HotelDateRange { begin_date: 1, end_date: 2 },
        Err(RepositoryError::Db("down".to_string())),
        Ok(vec![]),
    );
    assert_eq!(
        e,
        Err(HotelBookingServiceError::InfrastructureError(RepositoryError::Db("down".to_string())))
    );
}

fn order(status: OrderStatus, amount: Amount) -> HotelOrder {
    HotelOrder {
        uuid: 42,
        order_status: status,
        hotel_id: 1,
        room_id: 5,
        booking_date_range: HotelDateRange { begin_date: 100, end_date: 102 },
        personal_info_id: 7,
        amount,
    }
}

#[test]
fn booking_checks_status() {
    assert_eq!(check_booking_order(42, Ok(None)), Err(HotelBookingServiceError::InvalidOrder(42)));
    assert_eq!(
        check_booking_order(42, Ok(Some(order(OrderStatus::Unpaid, price(1, 0))))),
        Err(HotelBookingServiceError::InvalidOrderStatus(42, OrderStatus::Unpaid))
    );
    assert!(check_booking_order(42, Ok(Some(order(OrderStatus::Paid, price(1, 0))))).is_ok());
    assert_eq!(
        check_cancel_order(42, Ok(Some(order(OrderStatus::Paid, price(1, 0))))),
        Err(HotelBookingServiceError::InvalidOrderStatus(42, OrderStatus::Paid))
    );
    assert!(check_cancel_order(42, Ok(Some(order(OrderStatus::Ongoing, price(1, 0))))).is_ok());
}

#[test]
fn booking_plan_holds_one_room_per_unit() {
    let available = vec![(5u64, HotelRoomStatus { capacity: 4, remain_count: 3, price: price(1, 0) })];
    // 2.9 rooms ordered: truncated to 2.
    let (rooms, booked) = plan_hotel_booking(&order(OrderStatus::Paid, price(29, 1)), &available).unwrap();
    assert_eq!(rooms.len(), 2);
    assert!(rooms.iter().all(|r| r.hotel_room_type_id == 5 && r.id.is_none() && r.personal_info_id == 7));
    assert_eq!(booked.order_status, OrderStatus::Ongoing);
    let refused = plan_hotel_booking(&order(OrderStatus::Paid, price(4, 0)), &available);
    assert_eq!(refused, Err(HotelBookingServiceError::NoAvailableRoom(42)));
}

#[test]
fn booked_order_can_be_cancelled_then_not_booked_again() {
    let available = vec![(5u64, HotelRoomStatus { capacity: 4, remain_count: 3, price: price(1, 0) })];
    let (_, booked) = plan_hotel_booking(&order(OrderStatus::Paid, price(1, 0)), &available).unwrap();
    let to_cancel = check_cancel_order(42, Ok(Some(booked))).unwrap();
    let cancelled = swiftjourney::hotel_booking::cancelled_order(&to_cancel);
    assert_eq!(cancelled.order_status, OrderStatus::Cancelled);
    assert_eq!(
        check_booking_order(42, Ok(Some(cancelled))),
        Err(HotelBookingServiceError::InvalidOrderStatus(42, OrderStatus::Cancelled))
    );
}

#[test]
fn group_booking_goes_on_only_after_lack_of_rooms() {
    let mut g = GroupBooking::new();
    assert!(g.record(1, &Ok(())));
    assert!(g.record(2, &Err(HotelBookingServiceError::NoAvailableRoom(2))));
    assert!(!g.record(3, &Err(HotelBookingServiceError::InvalidOrder(3))));
    assert_eq!(g.succeeded, vec![1]);
    assert_eq!(g.failed, vec![2, 3]);
    assert_eq!(g.to_cancel(true), vec![1]);
    assert!(g.to_cancel(false).is_empty());
}

#[test]
fn all_room_status_lists_only_occupied_types() {
    let r = get_all_room_status(
        1,
        HotelDateRange { begin_date: 100, end_date: 100 },
        Ok(Some(hotel(vec![room_type(5, 2, price(1, 0)), room_type(6, 2, price(2, 0))]))),
        Ok(vec![occupied(6, 100, 101)]),
    )
    .unwrap();
    assert_eq!(r.len(), 1);
    assert_eq!(r[0].0, 6);
    assert_eq!(r[0].1.remain_count, 1);
    assert_eq!(
        get_all_room_status(3, HotelDateRange { begin_date: 1, end_date: 1 }, Ok(None), Ok(vec![])),
        Err(RoomStatusError::HotelNotFound(3))
    );
}

#[test]
fn lowest_price_is_first_minimum_by_value() {
    assert_eq!(lowest_price(&vec![]), price(0, 0));
    // 1.50 and 1.5 are equal: the first one stays.
    assert_eq!(lowest_price(&vec![price(200, 2), price(150, 2), price(15, 1)]), price(150, 2));
}

#[test]
fn minimum_prices_with_and_without_stay() {
    let svc = HotelQueryServiceImpl::new(Arc::new(()), Arc::new(()), Arc::new(()), Arc::new(()), Arc::new(()));
    let hotels = vec![hotel(vec![room_type(5, 2, price(300, 0)), room_type(6, 2, price(250, 0))])];
    assert_eq!(svc.calculate_minimum_prices(&hotels, None, &vec![]), vec![(1, price(250, 0))]);
    let statuses = vec![Some(vec![
        (5u64, HotelRoomStatus { capacity: 2, remain_count: 1, price: price(300, 0) }),
        (6u64, HotelRoomStatus { capacity: 2, remain_count: 0, price: price(250, 0) }),
    ])];
    let range = HotelDateRange { begin_date: 1, end_date: 2 };
    assert_eq!(svc.calculate_minimum_prices(&hotels, Some(range), &statuses), vec![(1, price(300, 0))]);
    assert!(svc.calculate_minimum_prices(&hotels, Some(range), &vec![None]).is_empty());
}

#[test]
fn comment_quota_counts_completed_orders() {
    let orders = vec![
        order(OrderStatus::Completed, price(2, 0)),
        order(OrderStatus::Ongoing, price(5, 0)),
        order(OrderStatus::Completed, price(15, 1)),
    ];
    assert_eq!(comment_quota(&orders), 3);
}

#[test]
fn comment_count_and_checks() {
    let c = |h: u64| HotelRating {
        id: None,
        user_id: 1,
        hotel_id: h,
        time: 0,
        rating: price(5, 0),
        text: "ok".to_string(),
    };
    assert_eq!(comment_count(&vec![c(1), c(2), c(1)], 1), 2);
    let svc = HotelRatingServiceImpl::new(Arc::new(()), Arc::new(()), Arc::new(()));
    assert_eq!(
        svc.check_comment(9, 2, 2, &"nice".to_string()),
        Err(HotelRatingServiceError::NoCommentsQuotaLeft(9, 2))
    );
    let long = "a".repeat(8193);
    assert_eq!(
        svc.check_comment(9, 2, 1, &long),
        Err(HotelRatingServiceError::CommentLengthExceed { limit: 8192, actual: 8193 })
    );
    assert_eq!(svc.check_comment(9, 2, 1, &"a".repeat(8192)), Ok(()));
}

#[test]
fn booking_never_overbooks_the_stay() {
    // Capacity 3, two rooms held on night 100; an order for one room over 100..=101.
    let range = HotelDateRange { begin_date: 100, end_date: 101 };
    let mut rooms = vec![occupied(5, 100, 101), occupied(5, 99, 101)];
    let h = hotel(vec![room_type(5, 3, price(1, 0))]);
    let before = service().get_available_room(1, range, Ok(Some(h.clone())), Ok(rooms.clone())).unwrap();
    assert_eq!(status_of(&before, 5).remain_count, 1);
    let mut o = order(OrderStatus::Paid, price(1, 0));
    o.booking_date_range = range;
    let (held, _) = plan_hotel_booking(&o, &before).unwrap();
    rooms.extend(held);
    let after = service().get_available_room(1, range, Ok(Some(h)), Ok(rooms.clone())).unwrap();
    assert_eq!(status_of(&after, 5).remain_count, 0);
    // A second order for one more room is refused.
    assert_eq!(plan_hotel_booking(&o, &after), Err(HotelBookingServiceError::NoAvailableRoom(42)));
}
