use std::collections::HashMap;
use std::sync::Arc;

use swiftjourney::domain::{OrderStatus, RepositoryError, ServiceError};
use swiftjourney::keyed_sort::sort_by_key;
use swiftjourney::route::{Route, Stop};
use swiftjourney::train_booking::{
    check_ticket_cancel, check_ticket_order, select_seat, GroupStep, TicketGroup,
    TrainBookingServiceError, TrainOrder,
};
use swiftjourney::train_schedule::{
    auto_plan_schedule, build_connections, build_outgoing_index, build_station_index,
    get_station_arrival_time, get_terminal_arrival_time, Connection, Train, TrainSchedule,
    TrainScheduleServiceImpl,
};
use swiftjourney::train_seat::{
    calc_available_seat_count_map, calc_station_id_to_order_map, OccupiedSegment, Seat,
    SeatAvailability, SeatLocationInfo, SeatStatus, SeatTypeOccupancy, TrainSeatServiceError,
    TrainSeatServiceImpl,
};

fn stop(station: u64, arrival: u32, departure: u32, order: u32) -> Stop {
    Stop { id: None, station_id: station, arrival_time: arrival, departure_time: departure, order }
}

fn route(id: u64, stops: Vec<Stop>) -> Route {
    Route { id: Some(id), stops }
}

fn schedule(id: u64, route_id: u64, date: i32, odt: i32) -> TrainSchedule {
    TrainSchedule { id: Some(id), train_id: 1, date, origin_departure_time: odt, route_id }
}

#[test]
fn stable_sort_keeps_equal_keys_in_order() {
    let v = vec![(3u32, 'a'), (1, 'b'), (3, 'c'), (2, 'd'), (1, 'e')];
    assert_eq!(sort_by_key(&v), vec![(1, 'b'), (1, 'e'), (2, 'd'), (3, 'a'), (3, 'c')]);
}

#[test]
fn connections_cover_every_later_stop_sorted_by_departure() {
    let routes = vec![route(7, vec![stop(10, 0, 0, 0), stop(20, 600, 660, 1), stop(30, 1200, 1200, 2)])];
    let schedules = vec![schedule(1, 7, 5, 3600), schedule(2, 99, 5, 0)];
    let c = build_connections(&schedules, &routes);
    assert_eq!(c.len(), 3);
    assert_eq!(
        c[0],
        Connection {
            departure_station: 10,
            departure_time: 3600,
            arrival_station: 20,
            arrival_time: 4200,
            train_schedule_id: 1
        }
    );
    assert_eq!((c[1].departure_station, c[1].arrival_station, c[1].arrival_time), (10, 30, 4800));
    assert_eq!((c[2].departure_station, c[2].departure_time, c[2].arrival_station), (20, 4260, 30));
}

#[test]
fn station_index_keeps_last_node() {
    let m = build_station_index(&vec![10, 20, 10]);
    assert_eq!(m.get(&10), Some(&2));
    assert_eq!(m.get(&20), Some(&1));
    assert_eq!(m.get(&30), None);
}

#[test]
fn outgoing_index_sorted_by_departure() {
    let conn = |from: u64, dep: u32| Connection {
        departure_station: from,
        departure_time: dep,
        arrival_station: 99,
        arrival_time: dep + 10,
        train_schedule_id: 1,
    };
    let c = vec![conn(1, 50), conn(2, 10), conn(1, 20), conn(1, 50)];
    let m: HashMap<u64, Vec<usize>> = build_outgoing_index(&c);
    assert_eq!(m.get(&1), Some(&vec![2, 0, 3]));
    assert_eq!(m.get(&2), Some(&vec![1]));
    assert_eq!(m.len(), 2);
}

fn schedule_service() -> TrainScheduleServiceImpl<(), (), (), ()> {
    TrainScheduleServiceImpl::new(Arc::new(()), Arc::new(()), Arc::new(()), Arc::new(()), 8)
}

#[test]
fn direct_schedules_pick_trains_leaving_that_day() {
    let routes = vec![route(7, vec![stop(10, 0, 0, 0), stop(20, 600, 600, 1), stop(30, 1200, 1200, 2)])];
    // Today's train leaves at 08:00; yesterday's at 23:55 reaches station 20 after midnight.
    let today = vec![schedule(1, 7, 100, 8 * 3600)];
    let yesterday = vec![schedule(2, 7, 99, 86100)];
    let pairs = vec![(20, 30), (10, 30)];
    let r = schedule_service().direct_schedules(100, &pairs, &today, &yesterday, &routes);
    assert_eq!(r.len(), 2);
    // Sorted by origin departure time: today's 08:00 first.
    assert_eq!((r[0].0.id, r[0].1, r[0].2), (Some(1), 20, 30));
    assert_eq!((r[1].0.id, r[1].1, r[1].2), (Some(2), 20, 30));
}

#[test]
fn transfer_needs_a_change_window() {
    // Train 1: A(10) -> B(20) arriving 3600; train 2: B -> C(30) leaving 4500 (15 min later);
    // train 3: B -> C leaving 3700 (too soon).
    let routes = vec![
        route(1, vec![stop(10, 0, 0, 0), stop(20, 3600, 3600, 1)]),
        route(2, vec![stop(20, 0, 0, 0), stop(30, 1800, 1800, 1)]),
    ];
    let today = vec![schedule(1, 1, 100, 0), schedule(2, 2, 100, 4500), schedule(3, 2, 100, 3700)];
    let r = schedule_service().transfer_schedules(100, &vec![(10, 30)], &today, &vec![], &routes);
    assert_eq!(r.len(), 1);
    assert_eq!(r[0], (vec![1, 2], 10, 30, Some(20)));
}

#[test]
fn terminal_and_station_arrival() {
    let r = route(7, vec![stop(10, 0, 0, 0), stop(30, 7200, 7200, 2), stop(20, 3600, 3700, 1)]);
    assert_eq!(get_terminal_arrival_time(1_000, &r), 8_200);
    let s = schedule(1, 7, 2, 600);
    assert_eq!(get_station_arrival_time(&s, &r, 20), Some(2 * 86400 + 600 + 3600));
    assert_eq!(get_station_arrival_time(&s, &r, 40), None);
}

#[test]
fn auto_plan_covers_missing_days() {
    let trains = vec![
        Train { id: Some(1), default_origin_departure_time: 100, default_route_id: 7 },
        Train { id: Some(2), default_origin_departure_time: 200, default_route_id: 8 },
    ];
    // Planned up to day 12 already; 5 days from day 10 asked: days 12, 13, 14.
    let r = auto_plan_schedule(10, 5, Some(12), &trains);
    assert_eq!(r.len(), 6);
    assert_eq!((r[0].train_id, r[0].date), (1, 12));
    assert_eq!((r[1].train_id, r[1].date, r[1].route_id), (2, 12, 8));
    assert_eq!((r[5].train_id, r[5].date), (2, 14));
    assert!(auto_plan_schedule(10, 2, Some(12), &trains).is_empty());
}

#[test]
fn seat_counts_by_free_stretch() {
    let r = route(7, vec![stop(10, 0, 0, 0), stop(20, 0, 0, 1), stop(30, 0, 0, 2), stop(40, 0, 0, 3)]);
    let ord = calc_station_id_to_order_map(&r);
    assert_eq!(ord.get(&20), Some(&1));
    // Seat 1 taken from station 20 to 30: free stretches (0,0) and (2,3).
    // Seat 2 taken from 10 to 40 over all but the last stop: free stretch (3,3).
    let info = vec![SeatTypeOccupancy {
        seat_type_id: 5,
        segments: vec![
            OccupiedSegment { begin_station_id: 20, end_station_id: 30, seat_ids: vec![1] },
            OccupiedSegment { begin_station_id: 10, end_station_id: 40, seat_ids: vec![2] },
        ],
    }];
    let mut m = calc_available_seat_count_map(5, &info, &ord, 4);
    m.sort();
    assert_eq!(m, vec![((0, 0), 1), ((2, 3), 1), ((3, 3), 1)]);
    let svc = TrainSeatServiceImpl::new(Arc::new(()), Arc::new(()), Arc::new(()), Arc::new(()));
    assert_eq!(svc.available_seats_count(5, &info, &r, 30, 40), 1);
    assert_eq!(svc.available_seats_count(5, &info, &r, 10, 40), 0);
}

fn loc(c: char) -> SeatLocationInfo {
    SeatLocationInfo { carriage: 1, row: 1, location: c }
}

#[test]
fn reserve_and_free_seat() {
    let svc = TrainSeatServiceImpl::new(Arc::new(()), Arc::new(()), Arc::new(()), Arc::new(()));
    let taken = Seat { id: 1, seat_type_id: 3, location_info: loc('A'), status: SeatStatus::Occupied };
    let mut avail = SeatAvailability {
        id: Some(1),
        train_schedule_id: 1,
        seat_type_id: 3,
        from_station_id: 10,
        to_station_id: 20,
        occupied_seat: vec![taken],
    };
    let list = vec![(1, loc('A')), (2, loc('B')), (3, loc('A'))];
    let s = svc.reserve_seat(&avail, &list, 'A').unwrap();
    assert_eq!((s.id, s.status), (3, SeatStatus::Occupied));
    assert_eq!(svc.reserve_seat(&avail, &list, 'F'), Err(TrainSeatServiceError::NoAvailableSeat));
    svc.free_seat(&mut avail, &taken);
    assert!(avail.occupied_seat.is_empty());
}

fn train_order(status: OrderStatus, seat: Option<Seat>) -> TrainOrder {
    TrainOrder {
        uuid: 9,
        order_status: status,
        train_schedule_id: 1,
        from_station_id: 10,
        to_station_id: 20,
        seat_type_name: "二等座".to_string(),
        preferred_seat_location: Some('A'),
        personal_info_id: 4,
        seat,
    }
}

#[test]
fn ticket_booking_and_cancel_checks() {
    assert!(check_ticket_order(9, Ok(Some(train_order(OrderStatus::Paid, None)))).is_ok());
    assert_eq!(
        check_ticket_order(9, Ok(Some(train_order(OrderStatus::Ongoing, None)))).err(),
        Some(TrainBookingServiceError::InvalidOrderStatus(9, OrderStatus::Ongoing))
    );
    assert_eq!(
        check_ticket_order(9, Err(RepositoryError::Db("x".to_string()))).err(),
        Some(TrainBookingServiceError::InfrastructureError(ServiceError::RepositoryError(RepositoryError::Db("x".to_string()))))
    );
    let seat = Seat { id: 1, seat_type_id: 3, location_info: loc('A'), status: SeatStatus::Occupied };
    assert_eq!(check_ticket_cancel(9, Ok(Some(train_order(OrderStatus::Ongoing, Some(seat))))).unwrap().1, true);
    assert_eq!(check_ticket_cancel(9, Ok(Some(train_order(OrderStatus::Unpaid, None)))).unwrap().1, false);
    assert_eq!(
        check_ticket_cancel(9, Ok(Some(train_order(OrderStatus::Ongoing, None)))).err(),
        Some(TrainBookingServiceError::InfrastructureError(ServiceError::RelatedServiceError(
            "Seat information is missing".to_string()
        )))
    );
    assert_eq!(
        check_ticket_cancel(9, Ok(Some(train_order(OrderStatus::Completed, None)))).err(),
        Some(TrainBookingServiceError::InvalidOrderStatus(9, OrderStatus::Completed))
    );
    assert_eq!(check_ticket_cancel(9, Ok(None)).err(), Some(TrainBookingServiceError::InvalidOrder(9)));
}

#[test]
fn seat_selection_prefers_location() {
    let list = vec![(1i64, loc('A')), (2, loc('B')), (3, loc('C'))];
    assert_eq!(select_seat(&list, &vec![1], Some('C')), Some((3, loc('C'))));
    assert_eq!(select_seat(&list, &vec![1], Some('F')), Some((2, loc('B'))));
    assert_eq!(select_seat(&list, &vec![], None), Some((1, loc('A'))));
    assert_eq!(select_seat(&list, &vec![1, 2, 3], Some('A')), None);
}

#[test]
fn atomic_ticket_group_cancels_bookings() {
    let mut g = TicketGroup::new();
    assert_eq!(g.record(1, true, true), GroupStep::Continue);
    assert_eq!(g.record(2, true, true), GroupStep::Continue);
    assert_eq!(g.record(3, false, true), GroupStep::Abort(vec![1, 2]));
    let mut h = TicketGroup::new();
    assert_eq!(h.record(3, false, false), GroupStep::Continue);
    assert_eq!(h.failed, vec![3]);
}
