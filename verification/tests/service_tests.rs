use std::collections::VecDeque;

use swiftjourney::dish_data::{
    chunk_ranges, plan_dish_rows, plan_takeaway_shops, RawDataError, RawDish, RawTakeaway,
};
use std::sync::Arc;

use swiftjourney::domain::{OrderStatus, OrderType, RepositoryError};
use swiftjourney::geo::{
    get_city_info_list, get_city_station_info, City, GeoInternalServiceError, GeoServiceError,
    GeoServiceImpl, Station, StationServiceError, StationServiceImpl,
};
use swiftjourney::meal_booking::{
    DishBookingServiceImpl, MealBookingServiceError, RemoteTakeawayBookingServiceImpl,
    TakeawayBookingServiceImpl,
};
use swiftjourney::money::{from_i32, zero, Amount};
use swiftjourney::order::{
    base_order_fields, calculate_can_cancel, get_reason, orders_to_update, split_status_messages,
    status_change_pack, BaseOrder, OrderServiceImpl, OrderStatusMessage,
};
use swiftjourney::password::{
    Argon2PasswordHasher, Argon2PasswordSaltGenerator, PasswordError, PasswordServiceImpl,
};
use swiftjourney::session::{UserListeners, UserSessions};
use swiftjourney::train_dish::{
    booking_reason, verify_dish_order_request, verify_takeaway_order_request, verify_train_order,
    Dish, DishOrderRequest, DishTime, MealRequestError, TakeawayDish, TakeawayOrderRequest,
    TakeawayShop, TrainDishApplicationServiceError, UserOrder,
};
use swiftjourney::route::Stop;
use swiftjourney::train_type::{SeatType, TrainTypeConfigurationServiceError, TrainTypeConfigurationServiceImpl};
use swiftjourney::transaction::{
    balance_or_zero, check_new_transaction, check_payment, mark_paid, orders_to_refund, TransactionOp,
    TransactionServiceError, TransactionStatus,
};
use swiftjourney::user::{UserInfo, UserServiceError, UserServiceImpl};

fn amt(m: i128, s: u32) -> Amount {
    Amount { mantissa: m, scale: s }
}

fn base(uuid: u128, status: OrderStatus, refunded: bool) -> BaseOrder {
    BaseOrder {
        uuid,
        order_status: status,
        order_type: OrderType::Dish,
        active_time: 100,
        complete_time: 200,
        unit_price: amt(1000, 2),
        amount: amt(1, 0),
        already_refund: refunded,
    }
}

#[test]
fn can_cancel_only_ongoing_unrefunded() {
    assert!(calculate_can_cancel(&base(1, OrderStatus::Ongoing, false)));
    assert!(!calculate_can_cancel(&base(1, OrderStatus::Ongoing, true)));
    assert!(!calculate_can_cancel(&base(1, OrderStatus::Paid, false)));
}

#[test]
fn reasons_match_cancellability() {
    assert_eq!(get_reason(OrderStatus::Ongoing, false), None);
    assert_eq!(get_reason(OrderStatus::Ongoing, true), Some("已退款".to_string()));
    assert_eq!(get_reason(OrderStatus::Unpaid, false), Some("订单未支付".to_string()));
    assert_eq!(get_reason(OrderStatus::Paid, false), Some("订单正在处理中".to_string()));
    assert_eq!(get_reason(OrderStatus::Active, false), Some("订单正在进行中".to_string()));
    assert_eq!(get_reason(OrderStatus::Completed, false), Some("订单已完成".to_string()));
    assert_eq!(get_reason(OrderStatus::Failed, false), Some("订单失败".to_string()));
    assert_eq!(get_reason(OrderStatus::Cancelled, false), Some("订单已取消".to_string()));
    for s in [OrderStatus::Unpaid, OrderStatus::Paid, OrderStatus::Ongoing, OrderStatus::Cancelled] {
        for r in [false, true] {
            assert_eq!(calculate_can_cancel(&base(1, s, r)), get_reason(s, r).is_none());
        }
    }
}

#[test]
fn base_fields_show_uuid_and_amount() {
    let svc = OrderServiceImpl::new(Arc::new(()), 8);
    assert_eq!(svc.tz_offset_hour, 8);
    let mut o = base(0x0123_4567_89ab_cdef_0123_4567_89ab_cdef, OrderStatus::Ongoing, false);
    o.amount = amt(-25, 1);
    let f = base_order_fields(&o);
    assert_eq!(f.order_id, "01234567-89ab-cdef-0123-456789abcdef");
    assert_eq!(f.amount, -2);
    assert!(f.can_cancel);
    assert_eq!(f.reason, None);
    assert_eq!(f.order_type, "dish");
    o.amount = amt(1, 28);
    assert_eq!(base_order_fields(&o).amount, 0);
}

#[test]
fn status_updates_by_time() {
    let orders = vec![
        base(1, OrderStatus::Paid, false),
        base(2, OrderStatus::Ongoing, false),
        base(3, OrderStatus::Ongoing, false),
    ];
    let at_150 = orders_to_update(&orders, 150);
    assert_eq!(at_150.len(), 1);
    assert_eq!((at_150[0].uuid, at_150[0].order_status), (1, OrderStatus::Ongoing));
    let at_250 = orders_to_update(&orders, 250);
    assert_eq!(at_250.len(), 3);
    assert!(at_250.iter().all(|o| o.order_status == OrderStatus::Completed));
    assert!(orders_to_update(&orders, 50).is_empty());
}

#[test]
fn messages_split_by_new_status() {
    let m = |id: u128, s: OrderStatus| OrderStatusMessage { order_id: id, order_type: OrderType::Dish, new_status: s };
    let (book, cancel) = split_status_messages(&vec![
        m(1, OrderStatus::Paid),
        m(2, OrderStatus::Cancelled),
        m(3, OrderStatus::Completed),
        m(4, OrderStatus::Paid),
    ]);
    assert_eq!(book, vec![1, 4]);
    assert_eq!(cancel, vec![2]);
    let pack = status_change_pack(77, true, &vec![base(1, OrderStatus::Unpaid, false)], OrderStatus::Paid);
    assert_eq!(pack.messages, vec![m(1, OrderStatus::Paid)]);
    assert!(pack.atomic);
}

#[test]
fn money_wrappers_compare_and_truncate() {
    // 1.49 < 1.5 by value, 1.50 is not.
    assert!(matches!(
        check_payment(5, TransactionStatus::Unpaid, amt(149, 2), amt(15, 1)),
        Err(TransactionServiceError::InsufficientFunds { .. })
    ));
    assert_eq!(check_payment(5, TransactionStatus::Unpaid, amt(150, 2), amt(15, 1)), Ok(()));
    // Amounts shown as whole numbers: -1.9 truncates to -1; too large shows 0.
    let mut o = base(1, OrderStatus::Ongoing, false);
    o.amount = amt(-19, 1);
    assert_eq!(base_order_fields(&o).amount, -1);
    o.amount = amt(3_000_000_000, 0);
    assert_eq!(base_order_fields(&o).amount, 0);
    assert_eq!(zero(), amt(0, 0));
    assert_eq!(from_i32(-5), amt(-5, 0));
}

#[test]
fn transaction_checks() {
    assert_eq!(
        check_new_transaction(&vec![base(1, OrderStatus::Unpaid, false), base(2, OrderStatus::Paid, false)]),
        Err(TransactionServiceError::InvalidOrderStatus {
            op: TransactionOp::New,
            status: OrderStatus::Paid,
            order_id: 2,
            transaction_id: None
        })
    );
    assert_eq!(check_new_transaction(&vec![base(1, OrderStatus::Unpaid, false)]), Ok(()));
    assert_eq!(
        check_payment(5, TransactionStatus::Unpaid, amt(999, 2), amt(10, 0)),
        Err(TransactionServiceError::InsufficientFunds { transaction_id: 5, balance: amt(999, 2), amount: amt(10, 0) })
    );
    assert_eq!(check_payment(5, TransactionStatus::Unpaid, amt(10, 0), amt(10, 0)), Ok(()));
    assert_eq!(
        check_payment(5, TransactionStatus::Paid, amt(10, 0), amt(10, 0)),
        Err(TransactionServiceError::InvalidTransactionStatus {
            op: TransactionOp::Pay,
            status: TransactionStatus::Paid,
            transaction_id: 5
        })
    );
    assert_eq!(balance_or_zero(None), amt(0, 0));
    let mut orders = vec![base(1, OrderStatus::Unpaid, false), base(2, OrderStatus::Unpaid, false)];
    mark_paid(&mut orders);
    assert!(orders.iter().all(|o| o.order_status == OrderStatus::Paid));
    let refunded = orders_to_refund(&orders, &vec![2, 9]);
    assert_eq!(refunded.len(), 1);
    assert_eq!(refunded[0].uuid, 2);
}

#[test]
fn meal_bookings() {
    let dish = DishBookingServiceImpl::new(Arc::new(()));
    let paid = base(1, OrderStatus::Paid, false);
    let booked = dish.booking_dish(1, Ok(Some(paid))).unwrap();
    assert_eq!(booked.order_status, OrderStatus::Ongoing);
    let cancelled = dish.cancel_dish(1, Ok(Some(booked))).unwrap();
    assert_eq!(cancelled.order_status, OrderStatus::Cancelled);
    assert_eq!(
        dish.booking_dish(1, Ok(Some(cancelled))),
        Err(MealBookingServiceError::InvalidOrderStatus(1, OrderStatus::Cancelled))
    );
    assert_eq!(dish.cancel_dish(3, Ok(None)), Err(MealBookingServiceError::InvalidOrder(3)));
    assert!(dish.booking_group_result().is_empty());
    let takeaway = TakeawayBookingServiceImpl::new(Arc::new(()));
    assert_eq!(
        takeaway.booking_takeaway(1, Err(RepositoryError::Db("x".to_string()))),
        Err(MealBookingServiceError::InfrastructureError(RepositoryError::Db("x".to_string())))
    );
    let remote = RemoteTakeawayBookingServiceImpl::new(Arc::new(()));
    assert_eq!(remote.booking_takeaway(1, Ok(Some(paid))), Err(MealBookingServiceError::InvalidOrder(1)));
    let mut t = paid;
    t.order_type = OrderType::Takeaway;
    t.order_status = OrderStatus::Unpaid;
    assert_eq!(remote.booking_takeaway(1, Ok(Some(t))).unwrap().order_status, OrderStatus::Ongoing);
}

#[test]
fn password_hash_then_verify() {
    let salt = Argon2PasswordSaltGenerator::generate();
    assert_eq!(salt.len(), 22);
    let pw = b"correct horse".to_vec();
    let h = Argon2PasswordHasher::hash(&pw, salt.clone()).unwrap();
    assert_eq!(h.salt, salt);
    assert_eq!(Argon2PasswordHasher::verify(&pw, &h), Ok(true));
    assert_eq!(Argon2PasswordHasher::verify(&b"wrong".to_vec(), &h), Ok(false));
    assert_eq!(PasswordServiceImpl::<Argon2PasswordSaltGenerator, Argon2PasswordHasher>::generate_salt().len(), 22);
    assert_eq!(
        Argon2PasswordHasher::hash(&pw, b"!!".to_vec()).err(),
        Some(PasswordError::HashFailed)
    );
    let mut bad = h.clone();
    bad.hashed_password = b"not a hash".to_vec();
    assert_eq!(Argon2PasswordHasher::verify(&pw, &bad), Err(PasswordError::InvalidHash));
}

#[test]
fn user_registration_and_passwords() {
    let svc = UserServiceImpl::new(Arc::new(()));
    let phone = "13800000000".to_string();
    let card = "110101199001010000".to_string();
    assert_eq!(
        svc.check_register(&phone, &card, Ok(true), Ok(false)),
        Err(UserServiceError::UserExists(phone.clone(), String::new()))
    );
    assert_eq!(
        svc.check_register(&phone, &card, Ok(false), Ok(true)),
        Err(UserServiceError::UserExists(String::new(), card.clone()))
    );
    assert_eq!(svc.check_register(&phone, &card, Ok(false), Ok(false)), Ok(()));
    let info = UserInfo { name: "张三".to_string(), phone, identity_card_id: card };
    let user = svc.new_user("zhang".to_string(), &b"pw1".to_vec(), info).unwrap();
    assert_eq!(svc.verify_password(&user, &b"pw1".to_vec()), Ok(()));
    assert_eq!(svc.verify_password(&user, &b"pw2".to_vec()), Err(UserServiceError::InvalidPassword));
    let changed = svc.set_password(3, Ok(Some(user)), &b"pw2".to_vec()).unwrap();
    assert_eq!(svc.verify_password(&changed, &b"pw2".to_vec()), Ok(()));
    assert_eq!(svc.set_password(3, Ok(None), &b"pw2".to_vec()).err(), Some(UserServiceError::NoSuchUser(3)));
}

#[test]
fn sessions_evict_oldest_and_listeners_drop_front() {
    let mut s = UserSessions::new();
    assert_eq!(s.create_session(1, 2), None);
    assert_eq!(s.create_session(2, 2), None);
    assert_eq!(s.create_session(3, 2), Some(1));
    assert_eq!(s.sessions, VecDeque::from(vec![2, 3]));
    s.delete_session(2);
    assert_eq!(s.sessions, VecDeque::from(vec![3]));
    let mut l = UserListeners::new();
    l.add_listener('a', 2);
    l.add_listener('b', 2);
    l.add_listener('c', 2);
    // The oldest listener ('a') was removed to make room.
    assert_eq!(l.listeners, VecDeque::from(vec!['c', 'b']));
    assert!(!l.keep_alive(&vec![false, true]));
    assert_eq!(l.listeners, VecDeque::from(vec!['b']));
    assert!(l.keep_alive(&vec![false]));
}

fn city(id: u64, name: &str, province: &str) -> City {
    City { id: Some(id), name: name.to_string(), province: province.to_string() }
}

#[test]
fn geography_grouping_and_checks() {
    let cities = vec![city(1, "南京", "江苏"), city(2, "杭州", "浙江"), city(3, "苏州", "江苏")];
    let g = get_city_info_list(&cities);
    assert_eq!(
        g,
        vec![
            ("江苏".to_string(), vec!["南京".to_string(), "苏州".to_string()]),
            ("浙江".to_string(), vec!["杭州".to_string()])
        ]
    );
    let stations = vec![
        Station { id: Some(10), name: "南京南".to_string(), city_id: 1 },
        Station { id: Some(11), name: "未知".to_string(), city_id: 9 },
        Station { id: Some(12), name: "南京".to_string(), city_id: 1 },
    ];
    let info = get_city_station_info(&stations, &cities);
    assert_eq!(info[0], ("南京".to_string(), vec!["南京南".to_string(), "南京".to_string()]));
    assert_eq!(info[1], (String::new(), vec!["未知".to_string()]));
    let geo = GeoServiceImpl::new(Arc::new(()));
    let map = geo.get_city_map(cities.clone());
    assert_eq!(map.len(), 2);
    // One representative city per province: the first one found.
    assert_eq!(map[0].0, "江苏");
    assert_eq!(map[0].1.len(), 1);
    assert_eq!(map[0].1[0].name, "南京");
    assert_eq!(map[1].1[0].name, "杭州");
    assert_eq!(geo.get_city_by_name(vec![]).map(|c| c.id), None);
    assert_eq!(
        geo.check_add_city(&cities[0], &vec![cities[0].clone()]),
        Err(GeoServiceError::CityExists("南京".to_string()))
    );
    assert_eq!(
        geo.modify_city(4, None, "x".to_string(), "y".to_string()).err(),
        Some(GeoServiceError::NoSuchCityId(4))
    );
    assert_eq!(GeoInternalServiceError::RelatedServiceError("x".to_string()).error_code(), 91000);
    let st = StationServiceImpl::new(Arc::new(()), Arc::new(()));
    assert_eq!(
        st.add_station("a".to_string(), "无".to_string(), None).err(),
        Some(StationServiceError::InvalidGeoInfo(GeoServiceError::InvalidCityName("无".to_string())))
    );
    assert_eq!(st.add_station("a".to_string(), "南京".to_string(), Some(cities[0].clone())).unwrap().city_id, 1);
    assert_eq!(
        st.modify_station(5, "a".to_string(), "南京".to_string(), Some(cities[0].clone()), false).err(),
        Some(StationServiceError::NoSuchStationId(5))
    );
    let pairs = st.station_pairs_by_city(&stations[0..2].to_vec(), &stations[2..3].to_vec());
    assert_eq!(pairs, vec![(10, 12), (11, 12)]);
}

#[test]
fn train_type_checks_and_seat_map() {
    let svc = TrainTypeConfigurationServiceImpl::new(Arc::new(()));
    let known = vec!["G1".to_string(), "D2".to_string()];
    assert_eq!(svc.verify_train_number("G1".to_string(), &known), Ok("G1".to_string()));
    assert_eq!(
        svc.verify_train_number("K3".to_string(), &known),
        Err(TrainTypeConfigurationServiceError::InvalidTrainNumber("K3".to_string()))
    );
    assert_eq!(
        svc.verify_seat_type_name(7, "商务座".to_string(), &vec![]),
        Err(TrainTypeConfigurationServiceError::InvalidSeatType(7, "商务座".to_string()))
    );
    let seat = |name: &str, cap: u32| SeatType { id: None, name: name.to_string(), capacity: cap, price: amt(1, 0) };
    let t = svc.train_configuration(
        "G1".to_string(),
        "高铁".to_string(),
        vec![seat("一等座", 10), seat("二等座", 20), seat("一等座", 30)],
        5,
        3600,
    );
    assert_eq!(t.seats.len(), 2);
    assert_eq!((t.seats[0].0.as_str(), t.seats[0].1.capacity), ("一等座", 30));
    assert_eq!((t.seats[1].0.as_str(), t.seats[1].1.capacity), ("二等座", 20));
}

#[test]
fn dish_requests_checked_in_order() {
    let dishes = vec![Dish { id: Some(3), name: "红烧肉".to_string(), unit_price: amt(30, 0) }];
    let people = vec![(100u128, 7u64)];
    let req = |name: &str, pid: u128, amount: i32, t: Option<DishTime>| DishOrderRequest {
        name: name.to_string(),
        personal_id: pid,
        amount,
        dish_time: t,
    };
    let ok = verify_dish_order_request(1, 86400, &dishes, &people, &vec![req("红烧肉", 100, 2, Some(DishTime::Dinner))])
        .unwrap();
    assert_eq!((ok[0].dish_id, ok[0].personal_id, ok[0].active_time), (3, 7, 86400 + 18 * 3600));
    assert_eq!(ok[0].amount, amt(2, 0));
    assert_eq!(
        verify_dish_order_request(1, 0, &dishes, &people, &vec![req("鱼", 100, 1, Some(DishTime::Lunch))]),
        Err(MealRequestError::Service(TrainDishApplicationServiceError::InvalidDishName("鱼".to_string())))
    );
    assert_eq!(
        verify_dish_order_request(1, 0, &dishes, &people, &vec![req("红烧肉", 5, 1, None)]),
        Err(MealRequestError::InvalidPersonalId(5))
    );
    assert_eq!(
        verify_dish_order_request(1, 0, &dishes, &people, &vec![req("红烧肉", 100, 0, None)]),
        Err(MealRequestError::ZeroAmount)
    );
    assert_eq!(
        verify_dish_order_request(1, 0, &dishes, &people, &vec![req("红烧肉", 100, 1, None)]),
        Err(MealRequestError::InvalidDishTime)
    );
    assert_eq!(TrainDishApplicationServiceError::InvalidTakeawayName("x".to_string()).error_code(), 22005);
    assert_eq!(
        TrainDishApplicationServiceError::InvalidDishName("鱼".to_string()).error_message(),
        "Invalid dish name: 鱼"
    );
    assert_eq!(booking_reason(true), None);
    assert_eq!(booking_reason(false), Some("您尚未购买此车次的火车票，无法预订餐食".to_string()));
}

#[test]
fn takeaway_requests_and_train_order() {
    let stop = Stop { id: None, station_id: 20, arrival_time: 3600, departure_time: 3660, order: 1 };
    let shops = vec![(
        stop,
        vec![TakeawayShop {
            name: "小店".to_string(),
            dishes: vec![TakeawayDish { id: Some(8), name: "盒饭".to_string(), unit_price: amt(25, 0) }],
        }],
    )];
    let stations = vec![("南京南".to_string(), 20u64)];
    let people = vec![(100u128, 7u64)];
    let req = |station: &str, shop: &str, name: &str, amount: i32| TakeawayOrderRequest {
        station: station.to_string(),
        shop_name: shop.to_string(),
        name: name.to_string(),
        personal_id: 100,
        amount,
    };
    let ok = verify_takeaway_order_request(1, 2, 7200, &shops, &stations, &people, &vec![req("南京南", "小店", "盒饭", 1)])
        .unwrap();
    assert_eq!((ok[0].takeaway_dish_id, ok[0].station_id, ok[0].active_time), (8, 20, 2 * 86400 + 7200 + 3600));
    assert_eq!(
        verify_takeaway_order_request(1, 2, 0, &shops, &stations, &people, &vec![req("北京", "小店", "盒饭", 1)]),
        Err(MealRequestError::Service(TrainDishApplicationServiceError::InvalidTakeawayStation("北京".to_string())))
    );
    assert_eq!(
        verify_takeaway_order_request(1, 2, 0, &shops, &stations, &people, &vec![req("南京南", "大店", "盒饭", 1)]),
        Err(MealRequestError::Service(TrainDishApplicationServiceError::InvalidTakeawayShopName("大店".to_string())))
    );
    assert_eq!(
        verify_takeaway_order_request(1, 2, 0, &shops, &stations, &people, &vec![req("南京南", "小店", "面", 1)]),
        Err(MealRequestError::Service(TrainDishApplicationServiceError::InvalidDishName("面".to_string())))
    );
    assert_eq!(
        verify_takeaway_order_request(1, 2, 0, &shops, &stations, &people, &vec![req("南京南", "小店", "盒饭", 0)]),
        Err(MealRequestError::ZeroAmount)
    );
    let orders = vec![
        UserOrder { order_id: Some(1), order_status: OrderStatus::Cancelled, train_schedule_id: Some(5) },
        UserOrder { order_id: Some(2), order_status: OrderStatus::Paid, train_schedule_id: None },
        UserOrder { order_id: Some(3), order_status: OrderStatus::Active, train_schedule_id: Some(5) },
    ];
    assert_eq!(verify_train_order(&orders, 5), Ok(3));
    assert_eq!(verify_train_order(&orders, 6), Err(TrainDishApplicationServiceError::NoRelatedTrainOrder));
}

#[test]
fn raw_menu_plan_uploads_each_picture_once() {
    let dish = |name: &str, pic: &str, times: &[&str]| RawDish {
        name: name.to_string(),
        dish_type: "主食".to_string(),
        picture: pic.to_string(),
        available_time: times.iter().map(|t| t.to_string()).collect(),
    };
    let trains = vec![("G1".to_string(), 11u64), ("G2".to_string(), 12)];
    let groups = vec![
        ("G1".to_string(), vec![dish("饭", "a.jpg", &["lunch", "dinner"]), dish("面", "b.jpg", &["lunch"])]),
        ("G2".to_string(), vec![dish("饭", "a.jpg", &["dinner"])]),
    ];
    let (pics, rows) = plan_dish_rows(&trains, &groups).unwrap();
    assert_eq!(pics, vec!["a.jpg".to_string(), "b.jpg".to_string()]);
    assert_eq!(rows.len(), 4);
    assert_eq!((rows[0].train_id, rows[0].time.as_str()), (11, "lunch"));
    assert_eq!((rows[1].train_id, rows[1].time.as_str()), (11, "dinner"));
    assert_eq!((rows[3].train_id, rows[3].source_group, rows[3].source_dish), (12, 1, 0));
    let bad = vec![("K9".to_string(), vec![dish("饭", "a.jpg", &["lunch"])])];
    assert_eq!(plan_dish_rows(&trains, &bad).err(), Some(RawDataError::UnknownTrainNumber("K9".to_string())));
}

#[test]
fn raw_takeaway_plan_and_chunks() {
    let t = |name: &str, pic: &str| RawTakeaway { name: name.to_string(), picture: pic.to_string() };
    let stations = vec![("南京南".to_string(), 20u64)];
    let data = vec![(
        "南京南".to_string(),
        vec![("小店".to_string(), vec![t("盒饭", "x.jpg"), t("面", "x.jpg")]), ("大店".to_string(), vec![])],
    )];
    let (pics, shops) = plan_takeaway_shops(&stations, &data).unwrap();
    assert_eq!(pics, vec!["x.jpg".to_string()]);
    assert_eq!(shops.len(), 2);
    assert_eq!((shops[0].station_id, shops[0].name.as_str(), shops[0].dishes.len()), (20, "小店", 2));
    assert_eq!((shops[1].name.as_str(), shops[1].source_station, shops[1].source_shop), ("大店", 0, 1));
    assert!(shops[1].dishes.is_empty());
    let bad = vec![("北京".to_string(), vec![])];
    assert_eq!(plan_takeaway_shops(&stations, &bad).err(), Some(RawDataError::UnknownStation("北京".to_string())));
    assert_eq!(chunk_ranges(10, 4), vec![(0, 4), (4, 8), (8, 10)]);
    assert_eq!(chunk_ranges(8, 4), vec![(0, 4), (4, 8)]);
    assert!(chunk_ranges(0, 4).is_empty());
}
