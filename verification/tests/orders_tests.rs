use metro_services::orders::{
    add_order, add_test_workers, refused_order, get_avalible_employees, get_orders, get_orders_by_id, parse_shift, search_avalible_employees,
    search_by_station, search_in_orders, AvalibleEmployees, Candidate, Date, Employees, OrderBook, OrderError, Place,
    RequestOrder, SearchStep, Workday, DAY,
};

/// 2 June 2024, 00:00 UTC.
const JUNE_2: i64 = 1717286400;

fn worker(id: &str, emp: &str, station: &str) -> AvalibleEmployees {
    AvalibleEmployees {
        id: id.to_owned(),
        employee_id: emp.to_owned(),
        date: Date::from_timestamp(JUNE_2),
        time: "07:00-19:00".to_owned(),
        station_id: station.to_owned(),
        is_busy: false,
    }
}

fn request(id: &str, from: &str, hour: i64, count: u32) -> RequestOrder {
    let mut r = RequestOrder::new("Иванова И.И.", from, "nd77715428", Date::from_timestamp(JUNE_2 + hour * 3600), count, None, Place::OnCenter);
    r.id = id.to_owned();
    r
}

fn workday(emp: &str, state: &str) -> Workday {
    Workday {
        id: "wd".to_owned(),
        employee_id: emp.to_owned(),
        date_work: Date::from_timestamp(JUNE_2),
        time_work: "07:00-19:00".to_owned(),
        state_wd: state.to_owned(),
        date_dop_smena: None,
        date_ucheba: None,
        date_change: None,
        intern: None,
    }
}

#[test]
fn dates() {
    let d = Date::from_timestamp(JUNE_2 + 9 * 3600 + 30 * 60);
    assert_eq!(d.add_minutes(30).timestamp, JUNE_2 + 10 * 3600);
    assert_eq!(d.sub_minutes(90).timestamp, JUNE_2 + 8 * 3600);
    assert_eq!(d.only_date().timestamp, JUNE_2);
    assert!(d.date_is_equalis(&Date::from_timestamp(JUNE_2)));
    assert!(!d.date_is_equalis(&Date::from_timestamp(JUNE_2 + DAY)));
    assert_eq!(Date::from_timestamp(-1).only_date().timestamp, -DAY);
    let a = Date::from_timestamp(100);
    let b = Date::from_timestamp(200);
    let timeline = vec![(Date::from_timestamp(0), Date::from_timestamp(100)), (Date::from_timestamp(150), Date::from_timestamp(300))];
    assert_eq!(Date::in_range((&a, &b), &timeline), Some(1));
    assert_eq!(Date::in_range((&a, &b), &timeline[..1].to_vec()), None);
}

#[test]
fn shifts() {
    assert_eq!(parse_shift("07:00-19:00"), Some((7, 19)));
    assert_eq!(parse_shift("20:00-08:00"), Some((20, 8)));
    assert_eq!(parse_shift("7-19"), None);
    assert_eq!(parse_shift("xx:00-19:00"), None);
    let (s, e) = workday("e1", "").work_dates_range();
    assert_eq!(s.timestamp, JUNE_2 + 7 * 3600);
    assert_eq!(e.timestamp, JUNE_2 + 19 * 3600);
}

#[test]
fn workdays_to_shifts() {
    let days = vec![workday("e1", ""), workday("e2", "nd77715428")];
    let w = get_avalible_employees(&days);
    assert_eq!(w.len(), 2);
    assert_eq!(w[0].employee_id, "e1");
    assert_eq!(w[0].station_id, "nd52567902");
    assert_eq!(w[1].station_id, "nd77715428");
    assert_eq!(w[0].id.len(), 36);
    assert!(!w[1].is_busy);
    let range = days[0].work_dates_range();
    assert_eq!(range.1.timestamp - range.0.timestamp, 12 * 3600);
}

#[test]
fn stations_on_the_day() {
    let all = vec![worker("w1", "e1", "s1"), worker("w2", "e2", "s2"), worker("w3", "e3", "s1")];
    let on = search_by_station(&all, "s1", &Date::from_timestamp(JUNE_2 + 3600));
    assert_eq!(on.iter().map(|a| a.id.clone()).collect::<Vec<_>>(), vec!["w1".to_owned(), "w3".to_owned()]);
    assert!(search_by_station(&all, "s1", &Date::from_timestamp(JUNE_2 + DAY)).is_empty());
}

#[test]
fn test_point_station() {
    let (emp, ava) = add_test_workers();
    let mut req = RequestOrder::new(
        "Заматова Мамата Ватовна",
        "nd52567902",
        "nd77715428",
        Date::from_timestamp(JUNE_2 + 9 * 3600 + 30 * 60),
        1,
        None,
        Place::OnCenter,
    );
    req.id = "r1".to_owned();
    let cands = match search_avalible_employees(&req, &ava, None) {
        SearchStep::Done(Ok(c)) => c,
        _ => panic!("an employee is at the departure station"),
    };
    assert_eq!(cands.len(), 1);
    assert_eq!(cands[0].0.employee_id, emp[2].id);
    let mut book = OrderBook::new();
    let o = add_order(&mut book, &req, &cands, &vec![], 20).ok().unwrap();
    assert_eq!(o.employess, vec![emp[2].id.clone()]);
    assert_eq!(o.start_work.timestamp, JUNE_2 + 9 * 3600 + 30 * 60);
    assert_eq!(o.end_work.timestamp, JUNE_2 + 9 * 3600 + 50 * 60);
}

#[test]
fn test_nearest_station() {
    let (_, ava) = add_test_workers();
    let req = RequestOrder::new(
        "Заматова Мамата Ватовна",
        "nd83680109",
        "nd68989070",
        Date::from_timestamp(JUNE_2 + 9 * 3600 + 30 * 60),
        1,
        None,
        Place::OnCenter,
    );
    assert!(matches!(search_avalible_employees(&req, &ava, None), SearchStep::NeedNearest));
    // the nearby stations are searched for employees of the departure
    // station again, so none is found there
    let near = vec![("nd52567902".to_owned(), 10u64), ("nd77715428".to_owned(), 20u64)];
    match search_avalible_employees(&req, &ava, Some(&near)) {
        SearchStep::Done(Err(OrderError::NotFreeWorkers(m))) => assert!(m.contains("60 минутах")),
        _ => panic!("no employee is at the departure station"),
    }
}

#[test]
fn candidates_from_nearby_stations() {
    let all = vec![worker("w1", "e1", "nd83680109"), worker("w3", "e3", "nd1")];
    let req = request("o1", "nd83680109", 9, 2);
    assert!(matches!(search_avalible_employees(&req, &all, None), SearchStep::NeedNearest));
    let near = vec![("nd1".to_owned(), 300u64), ("nd2".to_owned(), 400u64)];
    match search_avalible_employees(&req, &all, Some(&near)) {
        SearchStep::Done(Ok(c)) => {
            assert_eq!(c.len(), 2);
            assert!(c[0].1.is_none());
            assert_eq!(c[1].1, Some(("nd1".to_owned(), "nd83680109".to_owned())));
            assert_eq!(c[1].0.id, "w1");
        },
        _ => panic!("candidates are found"),
    }
}

#[test]
fn order_book_scenario() {
    let mut book = OrderBook::new();
    let cands: Vec<Candidate> = vec![(worker("e1", "e1", "nd52567902"), None), (worker("e2", "e2", "nd52567902"), None)];
    let req1 = request("o1", "nd52567902", 9, 2);
    let o = search_in_orders(&mut book, &req1, &cands, &vec![], 25).ok().unwrap();
    assert_eq!(o.employess, vec!["e1".to_owned(), "e2".to_owned()]);
    assert_eq!(o.start_work.timestamp, JUNE_2 + 9 * 3600);
    assert_eq!(o.end_work.timestamp, JUNE_2 + 9 * 3600 + 25 * 60);
    assert_eq!(o.average_path_time, 25);
    assert_eq!(book.len(), 1);

    // the same workers for an overlapping request: nobody is free
    let req2 = request("o2", "nd52567902", 9, 1);
    match search_in_orders(&mut book, &req2, &cands, &vec![10], 20) {
        Err(OrderError::NotFreeWorkers(m)) => assert_eq!(m, "нет свободных сотрудников"),
        _ => panic!("all workers are busy"),
    }
    assert_eq!(book.len(), 1);

    // orders list employee ids, and a shift is looked up by its own id
    let other_ids: Vec<Candidate> = vec![(worker("w1", "e1", "nd52567902"), None)];
    let mut copy = OrderBook::new();
    copy.push(book.find("o1").unwrap());
    let o2 = search_in_orders(&mut copy, &req2, &other_ids, &vec![10], 20).ok().unwrap();
    assert_eq!(o2.employess, vec!["e1".to_owned()]);

    // a later request that does not overlap: the first worker is taken again
    let req3 = request("o3", "nd52567902", 12, 1);
    let o3 = add_order(&mut book, &req3, &cands, &vec![10, 30], 20).ok().unwrap();
    assert_eq!(o3.employess, vec!["e1".to_owned()]);
    assert_eq!(o3.start_work.timestamp, JUNE_2 + 12 * 3600 - 30 * 60);
    assert_eq!(book.len(), 2);

    let found = get_orders_by_id(Some(&book), "o3").ok().unwrap();
    assert_eq!(found.employess, vec!["e1".to_owned()]);
    assert_eq!(get_orders_by_id(Some(&book), "zz").err().unwrap(), "Заявка с id zz не найдена");
    assert_eq!(get_orders(Some(&book)).ok().unwrap().len(), 2);
    assert_eq!(get_orders(None).err().unwrap(), "Не найдено ни одной заявки");
    assert_eq!(get_orders_by_id(None, "o1").err().unwrap(), "Не найдено ни одной заявки");

    match add_order(&mut book, &req2, &vec![], &vec![], 20) {
        Err(OrderError::NotFreeWorkers(m)) => assert!(m.starts_with("По текущим параметрам заявки")),
        _ => panic!("no candidates"),
    }
}

#[test]
fn error_messages() {
    match refused_order() {
        OrderError::NotFreeWorkers(m) => assert!(m.ends_with("10 минутах езды от станции указанной в заявке)")),
        _ => panic!("a refusal names no free workers"),
    }
    assert_eq!(OrderError::NotFreeWorkers("x".to_owned()).message(), "По данным параметрам заявки `x`");
    assert_eq!(OrderError::StationServiceError("y".to_owned()).message(), "Ошибка сервиса станций `y`");
    assert_eq!(OrderError::SendError("z".to_owned()).message(), "Ошибка подключения к сервису `z` при отправке сообщения");
}

#[test]
fn identifiers() {
    let e = Employees::new("Карасев Артём Ильич");
    assert_ne!(e.id, Employees::new("Карасев Артём Ильич").id);
    assert_eq!(e.id.len(), 36);
    assert_eq!(e.fio, "Карасев Артём Ильич");
    let req = RequestOrder::new("Иванова И.И.", "a", "b", Date::from_timestamp(JUNE_2), 2, Some("Осторожнее!".to_owned()), Place::OnLobby);
    assert_eq!(req.id.len(), 36);
    assert_eq!(req.employees_count, 2);
    assert_eq!(req.place, Some(Place::OnLobby));
}

#[test]
fn demonstration_workers() {
    let (emp, ava) = add_test_workers();
    assert_eq!(emp.len(), 20);
    assert_eq!(ava.len(), 4);
    assert_eq!(ava[0].employee_id, emp[3].id);
    assert_eq!(ava[3].station_id, "nd52567902");
    assert!(ava.iter().all(|a| a.date.timestamp == JUNE_2));
}

#[test]
fn identifier_shape() {
    let id = AvalibleEmployees::new("e1", Date::from_timestamp(0), "07:00-19:00", "s1").id;
    let chars: Vec<char> = id.chars().collect();
    assert_eq!(chars.len(), 36);
    for p in [8usize, 13, 18, 23] {
        assert_eq!(chars[p], '-');
    }
    assert_eq!(chars[14], '7');
}
