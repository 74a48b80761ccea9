use std::collections::VecDeque;
use std::sync::Arc;

use swiftjourney::dish_query::{dish_query_answer, DishQueryServiceImpl, MenuError};
use swiftjourney::domain::{OrderStatus, OrderType, RepositoryError, ServiceError};
use swiftjourney::geo::{City, GeoServiceError, StationServiceError, StationServiceImpl};
use swiftjourney::hotel::{
    Hotel, HotelBookingServiceError, HotelBookingServiceImpl, HotelDateRange, HotelRoomType, OccupiedRoom,
};
use swiftjourney::hotel_booking::{check_booking_order, check_cancel_order, plan_hotel_booking, HotelOrder};
use swiftjourney::hotel_rating::{comment_quota, HotelRatingServiceError, HotelRatingServiceImpl};
use swiftjourney::meal_booking::{DishBookingServiceImpl, MealBookingServiceError, MealGroup, TakeawayBookingServiceImpl};
use swiftjourney::money::Amount;
use swiftjourney::order::{
    base_order_fields, convert_notify, hotel_order_view, seat_fields, stay_dates, train_order_view, BaseOrder,
    HotelRelated, Notify, NotifyFields, TrainRelated,
};
use swiftjourney::route::{route_map, Route, Stop};
use swiftjourney::password::Argon2PasswordHasher;
use swiftjourney::session::{session_id_of, Session, SessionIdError, SessionManagerServiceImpl, UserSessions};
use swiftjourney::train_booking::{
    booked_order, cancelled_ticket, check_ticket_cancel, check_ticket_order, choose_seat_for, reservation_outcome,
    select_seat,
    TrainBookingServiceError, TrainOrder,
};
use swiftjourney::train_schedule::{
    schedule_on_date, terminal_arrival_with_offset, TrainSchedule, TrainScheduleServiceError,
    TrainScheduleServiceImpl,
};
use swiftjourney::train_dish::{
    dish_day_start, meal_orders, meal_transaction_request, passengers_of, place_meal_orders,
    verify_dish_orders_departing, Dish, DishOrderRequest, DishTime, MealRequestError, PersonalInfoRow, TakeawayDish,
    TakeawayShop, VerifiedDishOrderRequest, VerifiedTakeawayOrderRequest,
};
use swiftjourney::train_seat::{seat_availability_found, Seat, SeatLocationInfo, SeatStatus, TrainSeatServiceError};
use swiftjourney::transaction::{
    balance_or_zero, check_new_transaction, mark_refunded, paid_transaction, transaction_found, Transaction,
    TransactionOp, TransactionOrder, TransactionServiceError, TransactionStatus,
};
use swiftjourney::user::{UserInfo, UserServiceError, UserServiceImpl};
use swiftjourney::HOTEL_MAX_COMMENT_LENGTH;

// Day numbers (days from the first day of the common era) of 2025-09-01,
// 2025-09-02 and 2025-09-03.
const SEP_1: i32 = 739495;
const SEP_2: i32 = 739496;
const SEP_3: i32 = 739497;

fn dec(mantissa: i128, scale: u32) -> Amount {
    Amount { mantissa, scale }
}

fn meal_order(order_type: OrderType, status: OrderStatus) -> BaseOrder {
    BaseOrder {
        uuid: 77,
        order_status: status,
        order_type,
        active_time: 0,
        complete_time: 0,
        unit_price: dec(1000, 2),
        amount: dec(1, 0),
        already_refund: false,
    }
}

fn sunrise_hotel() -> Hotel {
    Hotel {
        id: Some(1),
        uuid: 5,
        name: "日升大酒店".to_string(),
        images: vec![],
        total_rating_count: 0,
        total_booking_count: 0,
        room_type_list: vec![HotelRoomType {
            id: Some(101),
            hotel_id: Some(1),
            room_type_name: "大床房".to_string(),
            capacity: 2,
            price: dec(1000, 2),
        }],
        info: "日升全程为您服务".to_string(),
    }
}

fn held_room() -> OccupiedRoom {
    OccupiedRoom {
        id: Some(1),
        hotel_id: 1,
        hotel_room_type_id: 1,
        booking_date_range: HotelDateRange { begin_date: SEP_1, end_date: SEP_2 },
        personal_info_id: 1,
    }
}

fn booking_service() -> HotelBookingServiceImpl<(), (), ()> {
    HotelBookingServiceImpl::new(Arc::new(()), Arc::new(()), Arc::new(()))
}

fn stay_order(status: OrderStatus) -> HotelOrder {
    HotelOrder {
        uuid: 31,
        order_status: status,
        hotel_id: 1,
        room_id: 101,
        booking_date_range: HotelDateRange { begin_date: SEP_1, end_date: SEP_2 },
        personal_info_id: 1,
        amount: dec(1, 0),
    }
}

fn ticket(status: OrderStatus) -> TrainOrder {
    TrainOrder {
        uuid: 12,
        order_status: status,
        train_schedule_id: 1,
        from_station_id: 1,
        to_station_id: 2,
        seat_type_name: "二等座".to_string(),
        preferred_seat_location: None,
        personal_info_id: 1,
        seat: None,
    }
}

fn beijing() -> City {
    City { id: Some(1), name: "City1".to_string(), province: "Province1".to_string() }
}

#[test]
fn test_booking_dish_success() {
    let service = DishBookingServiceImpl::new(Arc::new(()));
    assert!(service.booking_dish(77, Ok(Some(meal_order(OrderType::Dish, OrderStatus::Paid)))).is_ok());
}

#[test]
fn test_booking_dish_invalid_order_status() {
    let service = DishBookingServiceImpl::new(Arc::new(()));
    let result = service.booking_dish(77, Ok(Some(meal_order(OrderType::Dish, OrderStatus::Cancelled))));
    assert!(matches!(result, Err(MealBookingServiceError::InvalidOrderStatus(_, _))));
}

#[test]
fn test_booking_dish_order_not_found() {
    let service = DishBookingServiceImpl::new(Arc::new(()));
    let result = service.booking_dish(77, Ok(None));
    assert!(matches!(result, Err(MealBookingServiceError::InvalidOrder(_))));
}

#[test]
fn test_cancel_dish_success() {
    let service = DishBookingServiceImpl::new(Arc::new(()));
    assert!(service.cancel_dish(77, Ok(Some(meal_order(OrderType::Dish, OrderStatus::Ongoing)))).is_ok());
}

#[test]
fn test_cancel_dish_invalid_status() {
    let service = DishBookingServiceImpl::new(Arc::new(()));
    let result = service.cancel_dish(77, Ok(Some(meal_order(OrderType::Dish, OrderStatus::Paid))));
    assert!(matches!(result, Err(MealBookingServiceError::InvalidOrderStatus(_, _))));
}

#[test]
fn test_cancel_dish_order_not_found() {
    let service = DishBookingServiceImpl::new(Arc::new(()));
    let result = service.cancel_dish(77, Ok(None));
    assert!(matches!(result, Err(MealBookingServiceError::InvalidOrder(_))));
}

#[test]
fn test_booking_group_all_success() {
    let service = DishBookingServiceImpl::new(Arc::new(()));
    assert_eq!(service.booking_group_result().len(), 0);
}

#[test]
fn test_booking_takeaway_success() {
    let service = TakeawayBookingServiceImpl::new(Arc::new(()));
    let res = service.booking_takeaway(77, Ok(Some(meal_order(OrderType::Takeaway, OrderStatus::Paid))));
    assert!(res.is_ok());
}

#[test]
fn test_booking_takeaway_invalid_status() {
    let service = TakeawayBookingServiceImpl::new(Arc::new(()));
    let res = service.booking_takeaway(77, Ok(Some(meal_order(OrderType::Takeaway, OrderStatus::Cancelled))));
    assert!(matches!(res, Err(MealBookingServiceError::InvalidOrderStatus(_, _))));
}

#[test]
fn test_cancel_takeaway_success() {
    let service = TakeawayBookingServiceImpl::new(Arc::new(()));
    let res = service.cancel_takeaway(77, Ok(Some(meal_order(OrderType::Takeaway, OrderStatus::Ongoing))));
    assert!(res.is_ok());
}

#[test]
fn test_cancel_takeaway_invalid_status() {
    let service = TakeawayBookingServiceImpl::new(Arc::new(()));
    let res = service.cancel_takeaway(77, Ok(Some(meal_order(OrderType::Takeaway, OrderStatus::Paid))));
    assert!(matches!(res, Err(MealBookingServiceError::InvalidOrderStatus(_, _))));
}

#[test]
fn test_get_available_room_success() {
    let result = booking_service()
        .get_available_room(
            1,
            HotelDateRange { begin_date: SEP_1, end_date: SEP_3 },
            Ok(Some(sunrise_hotel())),
            Ok(vec![held_room()]),
        )
        .unwrap();
    assert!(!result.is_empty());
}

#[test]
fn test_get_available_room_invalid_hotel() {
    let result = booking_service().get_available_room(
        99,
        HotelDateRange { begin_date: SEP_1, end_date: SEP_3 },
        Ok(None),
        Ok(vec![held_room()]),
    );
    assert!(matches!(result, Err(HotelBookingServiceError::InvalidHotelId(_))));
}

#[test]
fn test_booking_hotel_success() {
    let order = check_booking_order(31, Ok(Some(stay_order(OrderStatus::Paid)))).unwrap();
    let available = booking_service()
        .get_available_room(
            1,
            order.booking_date_range,
            Ok(Some(sunrise_hotel())),
            Ok(vec![held_room()]),
        )
        .unwrap();
    let (rooms, booked) = plan_hotel_booking(&order, &available).unwrap();
    assert_eq!(rooms.len(), 1);
    assert_eq!(rooms[0].hotel_room_type_id, 101);
    assert_eq!(booked.order_status, OrderStatus::Ongoing);
}

#[test]
fn test_booking_hotel_invalid_status() {
    let result = check_booking_order(31, Ok(Some(stay_order(OrderStatus::Cancelled))));
    assert!(matches!(result, Err(HotelBookingServiceError::InvalidOrderStatus(_, _))));
}

#[test]
fn test_cancel_hotel_success() {
    assert!(check_cancel_order(31, Ok(Some(stay_order(OrderStatus::Ongoing)))).is_ok());
}

#[test]
fn test_cancel_hotel_invalid_status() {
    let result = check_cancel_order(31, Ok(Some(stay_order(OrderStatus::Cancelled))));
    assert!(matches!(result, Err(HotelBookingServiceError::InvalidOrderStatus(_, _))));
}

#[test]
fn test_get_hotel_comment_quota_success() {
    let mut completed = stay_order(OrderStatus::Completed);
    completed.booking_date_range = HotelDateRange { begin_date: SEP_1, end_date: SEP_3 };
    assert_eq!(comment_quota(&vec![completed]), 1);
}

#[test]
fn test_add_comment_success() {
    let service = HotelRatingServiceImpl::new(Arc::new(()), Arc::new(()), Arc::new(()));
    let quota = comment_quota(&vec![stay_order(OrderStatus::Completed)]);
    assert!(service.check_comment(5, quota, 0, &"Nice stay".to_string()).is_ok());
}

#[test]
fn test_add_comment_no_quota() {
    let service = HotelRatingServiceImpl::new(Arc::new(()), Arc::new(()), Arc::new(()));
    let quota = comment_quota(&vec![]);
    let res = service.check_comment(5, quota, 0, &"Nice stay".to_string());
    assert!(matches!(res, Err(HotelRatingServiceError::NoCommentsQuotaLeft(_, 0))));
}

#[test]
fn test_add_comment_text_too_long() {
    let service = HotelRatingServiceImpl::new(Arc::new(()), Arc::new(()), Arc::new(()));
    let quota = comment_quota(&vec![stay_order(OrderStatus::Completed)]);
    let text = "a".repeat(HOTEL_MAX_COMMENT_LENGTH + 1);
    let res = service.check_comment(5, quota, 0, &text);
    assert!(matches!(res, Err(HotelRatingServiceError::CommentLengthExceed { .. })));
}

#[test]
fn test_create_session_within_limit() {
    let mut sessions = UserSessions::new();
    assert_eq!(sessions.create_session(1, 2), None);
    assert_eq!(sessions.create_session(2, 2), None);
    assert_eq!(sessions.sessions.len(), 2);
    assert_eq!(sessions.sessions[0], 1);
    assert_eq!(sessions.sessions[1], 2);
}

#[test]
fn test_create_session_exceeds_limit_evicts_oldest() {
    let mut sessions = UserSessions::new();
    assert_eq!(sessions.create_session(1, 1), None);
    assert_eq!(sessions.create_session(2, 1), Some(1));
    assert_eq!(sessions.sessions, VecDeque::from(vec![2]));
}

#[test]
fn test_booking_ticket_success() {
    let order = check_ticket_order(12, Ok(Some(ticket(OrderStatus::Paid)))).unwrap();
    let seats = vec![(1i64, SeatLocationInfo { carriage: 3, row: 11, location: 'A' })];
    let (seat_id, location_info) = select_seat(&seats, &vec![], order.preferred_seat_location).unwrap();
    assert_eq!(seat_id, 1);
    let seat = Seat { id: seat_id, seat_type_id: 1, location_info, status: SeatStatus::Available };
    let booked = booked_order(&order, seat);
    assert_eq!(booked.order_status, OrderStatus::Ongoing);
}

#[test]
fn test_booking_ticket_invalid_status() {
    let res = check_ticket_order(12, Ok(Some(ticket(OrderStatus::Cancelled))));
    assert!(matches!(res, Err(TrainBookingServiceError::InvalidOrderStatus(_, _))));
}

#[test]
fn test_cancel_ticket_success() {
    let (order, free_seat) = check_ticket_cancel(12, Ok(Some(ticket(OrderStatus::Unpaid)))).unwrap();
    assert!(!free_seat);
    let cancelled = cancelled_ticket(order);
    assert_eq!(cancelled.order_status, OrderStatus::Cancelled);
    assert_eq!(cancelled.uuid, 12);
}

#[test]
fn test_cancel_ticket_invalid_status() {
    let res = check_ticket_cancel(12, Ok(Some(ticket(OrderStatus::Cancelled))));
    assert!(matches!(res, Err(TrainBookingServiceError::InvalidOrderStatus(_, _))));
}

#[test]
fn test_get_balance_none_returns_zero() {
    assert_eq!(balance_or_zero(None), Amount { mantissa: 0, scale: 0 });
}

#[test]
fn test_new_transaction_fail_invalid_order_status() {
    let res = check_new_transaction(&vec![meal_order(OrderType::Train, OrderStatus::Paid)]);
    assert!(matches!(
        res,
        Err(TransactionServiceError::InvalidOrderStatus { op: TransactionOp::New, .. })
    ));
}

#[test]
fn test_add_station_success() {
    let service = StationServiceImpl::new(Arc::new(()), Arc::new(()));
    let station = service.add_station("S1".to_string(), "City1".to_string(), Some(beijing())).unwrap();
    assert_eq!(station.city_id, 1);
    assert_eq!(station.name, "S1");
}

#[test]
fn test_add_station_fail_invalid_city() {
    let service = StationServiceImpl::new(Arc::new(()), Arc::new(()));
    let result = service.add_station("S1".to_string(), "CityNotExist".to_string(), None);
    assert!(matches!(
        result,
        Err(StationServiceError::InvalidGeoInfo(GeoServiceError::InvalidCityName(_)))
    ));
}

#[test]
fn test_modify_station_success() {
    let service = StationServiceImpl::new(Arc::new(()), Arc::new(()));
    let result = service.modify_station(1, "New".to_string(), "City1".to_string(), Some(beijing()), true);
    assert!(result.is_ok());
}

#[test]
fn test_modify_station_fail_no_station() {
    let service = StationServiceImpl::new(Arc::new(()), Arc::new(()));
    let result = service.modify_station(1, "New".to_string(), "City1".to_string(), Some(beijing()), false);
    assert!(matches!(result, Err(StationServiceError::NoSuchStationId(_))));
}

#[test]
fn test_modify_station_fail_invalid_city() {
    let service = StationServiceImpl::new(Arc::new(()), Arc::new(()));
    let result = service.modify_station(1, "New".to_string(), "CityNotExist".to_string(), None, true);
    assert!(matches!(result, Err(StationServiceError::InvalidGeoInfo(_))));
}

fn shop(name: &str) -> TakeawayShop {
    TakeawayShop {
        name: name.to_string(),
        dishes: vec![TakeawayDish { id: Some(1), name: "盒饭".to_string(), unit_price: dec(2500, 2) }],
    }
}

fn stop_at(station_id: u64, order: u32) -> Stop {
    Stop { id: None, station_id, arrival_time: order * 600, departure_time: order * 600 + 120, order }
}

#[test]
fn takeaway_menu_keeps_last_stop_with_shops_per_station() {
    let service = DishQueryServiceImpl::new(
        Arc::new(()),
        Arc::new(()),
        Arc::new(()),
        Arc::new(()),
        Arc::new(()),
        Arc::new(()),
    );
    let stations = vec![(1u64, "南京".to_string()), (2u64, "上海".to_string()), (1u64, "南京南".to_string())];
    let stops = vec![
        (stop_at(1, 0), vec![shop("A")]),
        (stop_at(2, 1), vec![]),
        (stop_at(1, 2), vec![shop("B"), shop("C")]),
    ];
    let menu = service.takeaway_menu(stops, &stations).unwrap();
    assert_eq!(menu.len(), 1);
    assert_eq!(menu[0].0, "南京南");
    let names: Vec<String> = menu[0].1.iter().map(|s| s.name.clone()).collect();
    assert_eq!(names, vec!["B".to_string(), "C".to_string()]);
    let unknown = vec![(stop_at(2, 0), vec![shop("A")]), (stop_at(3, 1), vec![]), (stop_at(4, 2), vec![])];
    assert_eq!(service.takeaway_menu(unknown, &stations).err(), Some(MenuError::UnknownStation(3)));
}

#[test]
fn passengers_are_those_of_the_user() {
    let rows = vec![
        PersonalInfoRow { id: 3, uuid: 30, user_id: 1 },
        PersonalInfoRow { id: 4, uuid: 40, user_id: 2 },
        PersonalInfoRow { id: 5, uuid: 50, user_id: 1 },
    ];
    assert_eq!(passengers_of(1, &rows), vec![(30, 3), (50, 5)]);
    assert_eq!(passengers_of(9, &rows), vec![]);
}

fn dish_request() -> VerifiedDishOrderRequest {
    VerifiedDishOrderRequest {
        dish_id: 8,
        personal_id: 3,
        train_id: 2,
        unit_price: dec(3000, 2),
        amount: dec(2, 0),
        dish_time: DishTime::Lunch,
        active_time: 1_000,
    }
}

fn takeaway_request() -> VerifiedTakeawayOrderRequest {
    VerifiedTakeawayOrderRequest {
        takeaway_dish_id: 6,
        train_id: 2,
        station_id: 11,
        personal_id: 5,
        unit_price: dec(1500, 2),
        amount: dec(1, 0),
        active_time: 2_000,
    }
}

#[test]
fn meal_orders_are_unpaid_dishes_then_takeaways() {
    let orders = meal_orders(&vec![dish_request()], &vec![takeaway_request()], 70, &vec![101, 102]);
    assert_eq!(orders.len(), 2);
    assert_eq!(orders[0].base.uuid, 101);
    assert_eq!(orders[0].base.order_type, OrderType::Dish);
    assert_eq!(orders[0].base.order_status, OrderStatus::Unpaid);
    assert_eq!(orders[0].base.active_time, 1_000);
    assert_eq!(orders[0].base.complete_time, 1_000);
    assert_eq!(orders[0].item_id, 8);
    assert_eq!(orders[0].personal_id, 3);
    assert_eq!(orders[0].train_order_id, 70);
    assert_eq!(orders[1].base.uuid, 102);
    assert_eq!(orders[1].base.order_type, OrderType::Takeaway);
    assert_eq!(orders[1].item_id, 6);
    assert_eq!(orders[1].base.unit_price, dec(1500, 2));
    let placed = place_meal_orders(&vec![dish_request(), dish_request()], &vec![takeaway_request()], 70);
    assert_eq!(placed.len(), 3);
    assert_ne!(placed[0].base.uuid, placed[1].base.uuid);
    assert!(placed.iter().all(|o| (o.base.uuid >> 76) & 0xf == 4 && (o.base.uuid >> 62) & 0x3 == 2));
    assert!(placed.iter().all(|o| o.base.order_status == OrderStatus::Unpaid && o.train_order_id == 70));
}

fn registered_user() -> swiftjourney::user::User {
    let svc = UserServiceImpl::new(Arc::new(()));
    let info = UserInfo {
        name: "日升".to_string(),
        phone: "17188888888".to_string(),
        identity_card_id: "11010519491231002X".to_string(),
    };
    svc.new_user("rising".to_string(), &b"login".to_vec(), info).unwrap()
}

#[test]
fn increment_payment_attempts_exceed() {
    let svc = UserServiceImpl::new(Arc::new(()));
    let mut user = registered_user();
    user.id = Some(1);
    user.wrong_payment_password_tried = 5;
    let result = svc.increment_wrong_payment_password_tried(1, Ok(Some(user)), 5);
    assert!(matches!(result, Err(UserServiceError::PaymentPasswordMaxAttemptsExceed(_))));
}

#[test]
fn payment_password_and_attempts() {
    let svc = UserServiceImpl::new(Arc::new(()));
    let user = registered_user();
    let salt = user.hashed_password.salt.clone();
    let with_pay = svc.set_payment_password(1, Ok(Some(user)), Some(b"123456".to_vec())).unwrap();
    let hp = with_pay.hashed_payment_password.clone().unwrap();
    assert_eq!(hp.salt, salt);
    assert_eq!(Argon2PasswordHasher::verify(&b"123456".to_vec(), &hp), Ok(true));
    assert_eq!(Argon2PasswordHasher::verify(&b"654321".to_vec(), &hp), Ok(false));
    let cleared = svc.set_payment_password(1, Ok(Some(with_pay)), None).unwrap();
    assert!(cleared.hashed_payment_password.is_none());
    let once = svc.increment_wrong_payment_password_tried(1, Ok(Some(cleared)), 3).unwrap();
    assert_eq!(once.wrong_payment_password_tried, 1);
    let reset = svc.clear_wrong_payment_password_tried(1, Ok(Some(once))).unwrap();
    assert_eq!(reset.wrong_payment_password_tried, 0);
    assert_eq!(svc.set_wrong_payment_password_tried(8, Ok(None), 2).err(), Some(UserServiceError::NoSuchUser(8)));
    let info = UserInfo { name: "新名".to_string(), phone: "1".to_string(), identity_card_id: "2".to_string() };
    assert_eq!(svc.set_user_info(1, Ok(Some(reset)), info).unwrap().user_info.name, "新名");
}

fn new_user_info() -> UserInfo {
    UserInfo {
        name: "DemoHasLanded".to_string(),
        phone: "13800000000".to_string(),
        identity_card_id: "110108197703065171".to_string(),
    }
}

#[test]
fn register_success() {
    let svc = UserServiceImpl::new(Arc::new(()));
    let user = svc
        .register("For Super Earth!".to_string(), &b"".to_vec(), new_user_info(), Ok(false), Ok(false))
        .unwrap();
    assert_eq!(user.username, "For Super Earth!");
    assert_eq!(user.user_info.name, "DemoHasLanded");
    assert_eq!(user.user_info.phone, "13800000000");
    assert_eq!(user.user_info.identity_card_id, "110108197703065171");
    assert_eq!(svc.verify_password(&user, &b"".to_vec()), Ok(()));
}

#[test]
fn register_phone_exists() {
    let svc = UserServiceImpl::new(Arc::new(()));
    let result = svc.register("For Super Earth!".to_string(), &b"".to_vec(), new_user_info(), Ok(true), Ok(false));
    assert_eq!(
        result.err(),
        Some(UserServiceError::UserExists("13800000000".to_string(), String::new()))
    );
}

fn session_at(expires_at: i64) -> Session {
    Session { session_id: 9, user_id: 1, created_at: expires_at - 3600, expires_at }
}

#[test]
fn test_get_session_returns_repository_result() {
    let manager = SessionManagerServiceImpl::new(Arc::new(()), 2, 3600);
    let live = session_at(10_000);
    assert_eq!(manager.get_session(Ok(Some(live)), 9_000), Ok(Some(live)));
    assert_eq!(manager.get_session(Ok(None), 9_000), Ok(None));
}

#[test]
fn expired_session_reads_as_none() {
    let manager = SessionManagerServiceImpl::new(Arc::new(()), 2, 3600);
    assert_eq!(manager.get_session(Ok(Some(session_at(10_000))), 10_001), Ok(None));
    assert_eq!(manager.get_session(Ok(Some(session_at(10_000))), 10_000), Ok(Some(session_at(10_000))));
    let created = manager.new_session(5, 1, 100);
    assert_eq!(created.expires_at, 3_700);
}

#[test]
fn test_get_user_id_by_session_returns_correct_user_id() {
    let manager = SessionManagerServiceImpl::new(Arc::new(()), 2, 3600);
    assert_eq!(manager.get_user_id_by_session(Ok(Some(session_at(10_000)))), Ok(Some(1)));
    assert_eq!(manager.get_user_id_by_session(Ok(None)), Ok(None));
}

#[test]
fn test_session_expiration_not_checked_in_get_user_id() {
    let manager = SessionManagerServiceImpl::new(Arc::new(()), 2, 3600);
    // Expired an hour ago, still answers with its user.
    assert_eq!(manager.get_user_id_by_session(Ok(Some(session_at(-3_600)))), Ok(Some(1)));
}

#[test]
fn no_free_seat_means_no_tickets() {
    let seats = vec![(1i64, SeatLocationInfo { carriage: 3, row: 11, location: 'A' })];
    assert_eq!(choose_seat_for(12, &seats, &vec![1], Some('A')).err(), Some(TrainBookingServiceError::NoAvailableTickets(12)));
    let order = ticket(OrderStatus::Paid);
    assert_eq!(
        reservation_outcome(12, &order, Err(TrainSeatServiceError::NoAvailableSeat)).err(),
        Some(TrainBookingServiceError::NoAvailableTickets(12))
    );
    assert_eq!(
        reservation_outcome(12, &order, Err(TrainSeatServiceError::InvalidSeatAvailability(4))).err(),
        Some(TrainBookingServiceError::InfrastructureError(ServiceError::RelatedServiceError(
            "Seat reservation failed".to_string()
        )))
    );
    let seat = Seat { id: 1, seat_type_id: 1, location_info: seats[0].1, status: SeatStatus::Occupied };
    let booked = reservation_outcome(12, &order, Ok(seat)).unwrap();
    assert_eq!(booked.order_status, OrderStatus::Ongoing);
    assert_eq!(booked.seat, Some(seat));
}

#[test]
fn test_booking_group_partial_fail() {
    let service = DishBookingServiceImpl::new(Arc::new(()));
    let mut group = MealGroup::new();
    let first = service.booking_dish(1, Ok(Some(meal_order(OrderType::Dish, OrderStatus::Paid))));
    assert!(group.record(1, &first));
    let second = service.booking_dish(2, Ok(Some(meal_order(OrderType::Dish, OrderStatus::Cancelled))));
    assert!(!group.record(2, &second));
    assert_eq!(group.booked, vec![1]);
    assert_eq!(service.booking_group_result().len(), 0);
}

#[test]
fn missing_lookups_are_refused() {
    assert_eq!(
        schedule_on_date("G1".to_string(), Ok(None)).err(),
        Some(TrainScheduleServiceError::InvalidTrainNumber("G1".to_string()))
    );
    let s = TrainSchedule { id: Some(1), train_id: 2, date: 3, origin_departure_time: 0, route_id: 4 };
    assert_eq!(schedule_on_date("G1".to_string(), Ok(Some(s))), Ok(s));
    assert_eq!(seat_availability_found(7, Ok(None)).err(), Some(TrainSeatServiceError::InvalidSeatAvailability(7)));
}

#[test]
fn station_arrival_is_read_in_the_service_time_zone() {
    let service = TrainScheduleServiceImpl::new(Arc::new(()), Arc::new(()), Arc::new(()), Arc::new(()), 8);
    let s = TrainSchedule { id: Some(1), train_id: 2, date: 10, origin_departure_time: 3_600, route_id: 4 };
    let route = Route { id: Some(4), stops: vec![stop_at(20, 0), stop_at(21, 1)] };
    // Day 10 at 01:00 local, plus 600 s to the second stop, read at UTC+8.
    assert_eq!(service.station_arrival_instant(&s, &route, 21), Ok((10 * 86_400 + 3_600 + 600 - 8 * 3_600, 8 * 3_600)));
    assert_eq!(service.station_arrival_instant(&s, &route, 99), Err(TrainScheduleServiceError::InvalidStationId(99)));
}

#[test]
fn route_map_lists_routes_per_station_pair() {
    let routes = vec![(1u64, vec![(10u64, 11u64), (11, 12)]), (2u64, vec![(11u64, 12u64)])];
    let g = route_map(vec![10, 11, 12], &routes);
    assert_eq!(g.stations, vec![10, 11, 12]);
    assert_eq!(g.edges, vec![((10, 11), vec![1]), ((11, 12), vec![1, 2])]);
}

#[test]
fn order_fields_show_status_seat_dates_and_id() {
    let mut o = meal_order(OrderType::Train, OrderStatus::Ongoing);
    o.uuid = 0x0123_4567_89ab_cdef_0011_2233_4455_6677;
    let f = base_order_fields(&o);
    assert_eq!(f.order_id, "01234567-89ab-cdef-0011-223344556677");
    assert_eq!(f.status, "Ongoing");
    let seat = seat_fields(Some(SeatLocationInfo { carriage: 3, row: 11, location: 'F' }), "二等座".to_string()).unwrap();
    assert_eq!((seat.carriage, seat.row, seat.location.as_str()), (3, 11, "F"));
    assert!(seat_fields(None, "二等座".to_string()).is_none());
    let (b, e) = stay_dates(HotelDateRange { begin_date: SEP_1, end_date: SEP_3 }).unwrap();
    assert_eq!((b.as_str(), e.as_str()), ("2025-09-01", "2025-09-03"));
    let shown = convert_notify(Notify::Order { title: "出票成功".to_string(), message_time: 5, order: o });
    match shown {
        NotifyFields::Order { title, message_time, order } => {
            assert_eq!(title, "出票成功");
            assert_eq!(message_time, 5);
            assert_eq!(order.order_type, "train");
        }
        _ => panic!("expected an order message"),
    }
}

fn unpaid_tx() -> Transaction {
    Transaction {
        uuid: 500,
        user_id: 1,
        status: TransactionStatus::Unpaid,
        atomic: false,
        orders: vec![
            TransactionOrder { order: meal_order(OrderType::Train, OrderStatus::Unpaid), refund_transaction_id: None },
            TransactionOrder {
                order: BaseOrder { uuid: 78, ..meal_order(OrderType::Dish, OrderStatus::Unpaid) },
                refund_transaction_id: None,
            },
        ],
    }
}

#[test]
fn test_pay_transaction_fail_invalid_transaction() {
    assert_eq!(transaction_found(500, Ok(None)).err(), Some(TransactionServiceError::InvalidTransactionId(500)));
}

#[test]
fn test_pay_transaction_success() {
    let tx = transaction_found(500, Ok(Some(unpaid_tx()))).unwrap();
    let paid = paid_transaction(tx, dec(1000, 0), dec(20, 0)).unwrap();
    assert_eq!(paid.status, TransactionStatus::Paid);
    assert!(paid.orders.iter().all(|o| o.order.order_status == OrderStatus::Paid));
    let again = paid_transaction(paid, dec(1000, 0), dec(20, 0));
    assert!(matches!(again, Err(TransactionServiceError::InvalidTransactionStatus { .. })));
}

#[test]
fn test_refund_transaction_success() {
    let mut orders = unpaid_tx().orders;
    mark_refunded(&mut orders, &vec![78], 900);
    assert_eq!(orders[0].refund_transaction_id, None);
    assert_eq!(orders[1].refund_transaction_id, Some(900));
    assert_eq!(orders[1].order.uuid, 78);
}

#[test]
fn meal_transactions_are_not_atomic() {
    let orders = meal_orders(&vec![dish_request()], &vec![], 70, &vec![101]);
    let request = meal_transaction_request(4, orders);
    assert_eq!(request.user_id, 4);
    assert!(!request.atomic);
    assert_eq!(request.orders.len(), 1);
}

#[test]
fn dish_times_follow_the_departure_text() {
    // Midnight of 2025-08-30 at UTC+8.
    let day = dish_day_start(&"2025-08-30T08:00:00+08:00".to_string()).unwrap();
    assert_eq!(day, 1_756_483_200);
    assert_eq!(dish_day_start(&"yesterday".to_string()), Err(MealRequestError::InvalidDepartureTime));
    let dishes = vec![Dish { id: Some(8), name: "盒饭".to_string(), unit_price: dec(3000, 2) }];
    let requests = vec![DishOrderRequest {
        name: "盒饭".to_string(),
        personal_id: 30,
        amount: 1,
        dish_time: Some(DishTime::Dinner),
    }];
    let verified =
        verify_dish_orders_departing(2, &"2025-08-30T08:00:00+08:00".to_string(), &dishes, &vec![(30, 3)], &requests)
            .unwrap();
    assert_eq!(verified[0].active_time, 1_756_483_200 + 18 * 3_600);
    assert_eq!(verified[0].dish_id, 8);
}

#[test]
fn dish_query_answer_gives_reason_only_when_not_bookable() {
    let a = dish_query_answer("G1".to_string(), "t0".to_string(), "t1".to_string(), vec![], true);
    assert!(a.can_booking && a.reason.is_none());
    let b = dish_query_answer("G1".to_string(), "t0".to_string(), "t1".to_string(), vec![], false);
    assert_eq!(b.reason.unwrap(), "您尚未购买此车次的火车票，无法预订餐食");
    assert_eq!(b.train_number, "G1");
}

#[test]
fn session_ids_are_uuids() {
    assert_eq!(session_id_of(&"00000000-0000-0000-0000-00000000002a".to_string()), Ok(42));
    assert_eq!(session_id_of(&"not a session".to_string()), Err(SessionIdError::InvalidSessionId));
}

#[test]
fn terminal_arrival_keeps_the_departure_offset() {
    let route = Route { id: Some(4), stops: vec![stop_at(20, 0), stop_at(21, 1)] };
    assert_eq!(terminal_arrival_with_offset(1_000, 28_800, &route), (1_600, 28_800));
}

#[test]
fn test_convert_order_to_dto_train_success() {
    let t = |x: &str| x.to_string();
    let related = TrainRelated {
        train_number: t("G123"),
        departure_station: t("Beijing"),
        arrival_station: t("Shanghai"),
        departure_time: t("08:00"),
        arrival_time: t("12:30"),
        origin_station: t("Beijing"),
        terminal_station: t("Shanghai"),
        origin_departure_time: t("08:00"),
        terminal_arrival_time: t("12:30"),
        name: t("张三"),
    };
    let order = meal_order(OrderType::Train, OrderStatus::Ongoing);
    let view = train_order_view(&order, related, Some(SeatLocationInfo { carriage: 5, row: 2, location: 'C' }), t("二等座"));
    assert_eq!(view.related.train_number, "G123");
    assert_eq!(view.related.departure_station, "Beijing");
    assert_eq!(view.base.order_type, "train");
    assert_eq!(view.seat.unwrap().location, "C");
}

#[test]
fn test_convert_order_to_dto_hotel_success() {
    let related = HotelRelated {
        hotel_id: "1".to_string(),
        name: "张三".to_string(),
        room_type: "大床房".to_string(),
        hotel_name: "Hilton".to_string(),
    };
    let order = meal_order(OrderType::Hotel, OrderStatus::Paid);
    let view = hotel_order_view(&order, related, HotelDateRange { begin_date: SEP_1, end_date: SEP_2 }).unwrap();
    assert_eq!(view.related.hotel_name, "Hilton");
    assert_eq!((view.begin_date.as_str(), view.end_date.as_str()), ("2025-09-01", "2025-09-02"));
    assert_eq!(view.base.status, "Paid");
}
