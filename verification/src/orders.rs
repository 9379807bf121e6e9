//! Orders for passenger assistance and the choice of the employees who
//! take them.
use vstd::prelude::*;
use vstd::string::*;
use crate::ids::{new_v7_id, v7_shape};
use crate::jwt::unix_now;
use crate::registry::{clone_opt_string, opt_string_view};
use crate::text::{parse_i64, parse_int, split_once, split_once_char};

verus! {

/// A point in time, in seconds since the Unix epoch (UTC).
#[derive(Clone, Copy, PartialEq, Eq, Structural, Debug)]
pub struct Date {
    pub timestamp: i64,
}

/// Seconds in a day.
pub const DAY: i64 = 86400;

/// A shift so large that any `i64` moved by it is non-negative.
const DAY_SHIFT: i128 = 86400 * 140737488355328;

impl Date {
    pub fn from_timestamp(timestamp: i64) -> (r: Date)
        ensures
            r.timestamp == timestamp,
    {
        Date { timestamp }
    }

    /// The day number of this point in time.
    pub open spec fn day(self) -> int {
        self.timestamp as int / DAY as int
    }

    /// This point in time moved forward by `minutes`.
    pub fn add_minutes(self, minutes: i64) -> (r: Date)
        requires
            i64::MIN <= self.timestamp + 60 * minutes <= i64::MAX,
            i64::MIN <= 60 * minutes <= i64::MAX,
        ensures
            r.timestamp == self.timestamp + 60 * minutes,
    {
        Date { timestamp: self.timestamp + 60 * minutes }
    }

    /// This point in time moved back by `minutes`.
    pub fn sub_minutes(self, minutes: i64) -> (r: Date)
        requires
            i64::MIN <= self.timestamp - 60 * minutes <= i64::MAX,
            i64::MIN <= 60 * minutes <= i64::MAX,
        ensures
            r.timestamp == self.timestamp - 60 * minutes,
    {
        Date { timestamp: self.timestamp - 60 * minutes }
    }

    fn day_number(&self) -> (r: i128)
        ensures
            r == self.day(),
    {
        let t = self.timestamp as i128 + DAY_SHIFT;
        assert(t >= 0);
        let q = t / (DAY as i128);
        assert((self.timestamp as int + 86400 * 140737488355328) / 86400 == self.timestamp as int / 86400 + 140737488355328) by (nonlinear_arith);
        q - 140737488355328
    }

    /// Whether the two points in time fall on the same day.
    pub fn date_is_equalis(&self, other: &Date) -> (r: bool)
        ensures
            r == (self.day() == other.day()),
    {
        self.day_number() == other.day_number()
    }

    /// The start of this point's day.
    pub fn only_date(&self) -> (r: Date)
        requires
            self.timestamp >= i64::MIN + DAY,
        ensures
            r.timestamp == self.day() * DAY,
            r.day() == self.day(),
    {
        let d = self.day_number();
        assert(i64::MIN <= d * 86400 <= self.timestamp) by (nonlinear_arith)
            requires d == self.timestamp as int / 86400, i64::MIN + 86400 <= self.timestamp <= i64::MAX;
        let r = Date { timestamp: (d * 86400) as i64 };
        assert((d * 86400) / 86400 == d) by (nonlinear_arith);
        r
    }

    /// The position of the first range of `timeline` that overlaps
    /// `range`, if any.
    pub fn in_range(range: (&Date, &Date), timeline: &Vec<(Date, Date)>) -> (r: Option<usize>)
        ensures
            r matches Some(i) ==> i < timeline@.len() && overlaps(*range.0, *range.1, timeline@[i as int].0, timeline@[i as int].1)
                && forall|j: int| 0 <= j < i ==> !overlaps(*range.0, *range.1, #[trigger] timeline@[j].0, timeline@[j].1),
            r is None ==> forall|j: int| 0 <= j < timeline@.len() ==> !overlaps(*range.0, *range.1, #[trigger] timeline@[j].0, timeline@[j].1),
    {
        let mut i: usize = 0;
        while i < timeline.len()
            invariant
                i <= timeline@.len(),
                forall|j: int| 0 <= j < i ==> !overlaps(*range.0, *range.1, #[trigger] timeline@[j].0, timeline@[j].1),
            decreases timeline@.len() - i,
        {
            let (b1, b2) = timeline[i];
            if range.0.timestamp < b2.timestamp && b1.timestamp < range.1.timestamp {
                return Some(i);
            }
            i = i + 1;
        }
        None
    }
}

/// Whether the time ranges `[a1, a2)` and `[b1, b2)` share a moment.
pub open spec fn overlaps(a1: Date, a2: Date, b1: Date, b2: Date) -> bool {
    a1.timestamp < b2.timestamp && b1.timestamp < a2.timestamp
}

/// Whether the moment `t` falls in `[a1, a2)`.
pub open spec fn within(t: int, a1: Date, a2: Date) -> bool {
    a1.timestamp <= t < a2.timestamp
}

/// Two time ranges that are not empty overlap exactly when some moment falls
/// in both.
pub proof fn law_overlap_shares_moment(a1: Date, a2: Date, b1: Date, b2: Date)
    requires
        a1.timestamp < a2.timestamp,
        b1.timestamp < b2.timestamp,
    ensures
        overlaps(a1, a2, b1, b2) <==> exists|t: int| #[trigger] within(t, a1, a2) && within(t, b1, b2),
{
    let t: int = if a1.timestamp < b1.timestamp { b1.timestamp as int } else { a1.timestamp as int };
    if overlaps(a1, a2, b1, b2) {
        assert(within(t, a1, a2) && within(t, b1, b2));
    }
}

/// Where in the station the passenger is met.
#[derive(Clone, Copy, PartialEq, Eq, Structural, Debug)]
pub enum Place {
    /// At the entrance.
    OnEnter,
    /// At the turnstiles.
    OnTurnstile,
    /// In the lobby.
    OnLobby,
    /// In the middle of the hall.
    OnCenter,
}

/// The errors of the order service's own logic.
pub enum OrderError {
    NotFreeWorkers(String),
    StationServiceError(String),
    SendError(String),
}

impl OrderError {
    pub open spec fn message_of(&self) -> Seq<char> {
        match self {
            OrderError::NotFreeWorkers(m) => "По данным параметрам заявки `"@ + m@ + "`"@,
            OrderError::StationServiceError(m) => "Ошибка сервиса станций `"@ + m@ + "`"@,
            OrderError::SendError(m) => "Ошибка подключения к сервису `"@ + m@ + "` при отправке сообщения"@,
        }
    }

    /// The text of the error.
    pub fn message(&self) -> (r: String)
        ensures
            r@ == self.message_of(),
    {
        let (head, m, tail) = match self {
            OrderError::NotFreeWorkers(m) => ("По данным параметрам заявки `", m, "`"),
            OrderError::StationServiceError(m) => ("Ошибка сервиса станций `", m, "`"),
            OrderError::SendError(m) => ("Ошибка подключения к сервису `", m, "` при отправке сообщения"),
        };
        let mut r = String::from_str(head);
        r.append(m.as_str());
        r.append(tail);
        r
    }
}

/// A request for assistance, as values.
pub struct RequestOrderView {
    pub id: Seq<char>,
    pub fio: Seq<char>,
    pub path_from: Seq<char>,
    pub path_to: Seq<char>,
    pub request_date: Date,
    pub note: Option<Seq<char>>,
    pub employees_count: u32,
    pub place: Option<Place>,
}

/// A passenger's request for assistance from one station to another.
pub struct RequestOrder {
    pub id: String,
    pub fio: String,
    /// Node id of the departure station.
    pub path_from: String,
    /// Node id of the arrival station.
    pub path_to: String,
    pub request_date: Date,
    pub note: Option<String>,
    /// How many employees the passenger needs.
    pub employees_count: u32,
    pub place: Option<Place>,
}

impl View for RequestOrder {
    type V = RequestOrderView;

    open spec fn view(&self) -> RequestOrderView {
        RequestOrderView {
            id: self.id@,
            fio: self.fio@,
            path_from: self.path_from@,
            path_to: self.path_to@,
            request_date: self.request_date,
            note: opt_string_view(self.note),
            employees_count: self.employees_count,
            place: self.place,
        }
    }
}

impl RequestOrder {
    /// A new request with a fresh identifier.
    pub fn new(fio: &str, path_from: &str, path_to: &str, date: Date, count: u32, note: Option<String>, place: Place) -> (r: Self)
        ensures
            v7_shape(r@.id),
            r@.fio == fio@,
            r@.path_from == path_from@,
            r@.path_to == path_to@,
            r@.request_date == date,
            r@.employees_count == count,
            r@.note == opt_string_view(note),
            r@.place == Some(place),
    {
        let now = unix_now();
        let id = new_v7_id(now as u64, fio.len() as u16);
        RequestOrder {
            id,
            fio: fio.to_owned(),
            path_from: path_from.to_owned(),
            path_to: path_to.to_owned(),
            request_date: date,
            employees_count: count,
            note,
            place: Some(place),
        }
    }
}

/// An accepted order, as values.
pub struct OrderView {
    pub id: Seq<char>,
    pub fio: Seq<char>,
    pub request_date: Date,
    pub path_from: Seq<char>,
    pub path_to: Seq<char>,
    pub average_path_time: u32,
    pub note: Option<Seq<char>>,
    pub place: Option<Place>,
    pub start_work: Date,
    pub end_work: Date,
    pub employess: Seq<Seq<char>>,
}

/// An accepted order: the request, the travel time, the time the employees
/// are busy with it, and their ids.
pub struct Order {
    pub id: String,
    pub fio: String,
    pub request_date: Date,
    pub path_from: String,
    pub path_to: String,
    pub average_path_time: u32,
    pub note: Option<String>,
    pub place: Option<Place>,
    pub start_work: Date,
    pub end_work: Date,
    pub employess: Vec<String>,
}

impl View for Order {
    type V = OrderView;

    open spec fn view(&self) -> OrderView {
        OrderView {
            id: self.id@,
            fio: self.fio@,
            request_date: self.request_date,
            path_from: self.path_from@,
            path_to: self.path_to@,
            average_path_time: self.average_path_time,
            note: opt_string_view(self.note),
            place: self.place,
            start_work: self.start_work,
            end_work: self.end_work,
            employess: crate::registry::strings_view(self.employess@),
        }
    }
}

impl Clone for Order {
    fn clone(&self) -> (r: Self)
        ensures
            r@ == self@,
    {
        Order {
            id: self.id.clone(),
            fio: self.fio.clone(),
            request_date: self.request_date,
            path_from: self.path_from.clone(),
            path_to: self.path_to.clone(),
            average_path_time: self.average_path_time,
            note: clone_opt_string(&self.note),
            place: self.place,
            start_work: self.start_work,
            end_work: self.end_work,
            employess: crate::registry::clone_strings(&self.employess),
        }
    }
}

impl Order {
    /// When the employees of the order are busy.
    pub fn busy_time_range(&self) -> (r: (&Date, &Date))
        ensures
            *r.0 == self.start_work,
            *r.1 == self.end_work,
    {
        (&self.start_work, &self.end_work)
    }
}

/// An employee on shift, as values.
pub struct AvalibleEmployeesView {
    pub id: Seq<char>,
    pub employee_id: Seq<char>,
    pub date: Date,
    pub time: Seq<char>,
    pub station_id: Seq<char>,
    pub is_busy: bool,
}

/// An employee on shift: the shift's day and hours and the station the
/// employee is at.
pub struct AvalibleEmployees {
    pub id: String,
    pub employee_id: String,
    pub date: Date,
    pub time: String,
    pub station_id: String,
    pub is_busy: bool,
}

impl View for AvalibleEmployees {
    type V = AvalibleEmployeesView;

    open spec fn view(&self) -> AvalibleEmployeesView {
        AvalibleEmployeesView {
            id: self.id@,
            employee_id: self.employee_id@,
            date: self.date,
            time: self.time@,
            station_id: self.station_id@,
            is_busy: self.is_busy,
        }
    }
}

impl Clone for AvalibleEmployees {
    fn clone(&self) -> (r: Self)
        ensures
            r@ == self@,
    {
        AvalibleEmployees {
            id: self.id.clone(),
            employee_id: self.employee_id.clone(),
            date: self.date,
            time: self.time.clone(),
            station_id: self.station_id.clone(),
            is_busy: self.is_busy,
        }
    }
}

impl AvalibleEmployees {
    /// A free employee on shift, with a fresh identifier.
    pub fn new(emp_id: &str, date: Date, time: &str, station: &str) -> (r: Self)
        ensures
            v7_shape(r@.id),
            r@.employee_id == emp_id@,
            r@.date == date,
            r@.time == time@,
            r@.station_id == station@,
            !r@.is_busy,
    {
        let now = unix_now();
        let id = new_v7_id(now as u64, date.timestamp as u16);
        AvalibleEmployees {
            id,
            employee_id: emp_id.to_owned(),
            date,
            time: time.to_owned(),
            station_id: station.to_owned(),
            is_busy: false,
        }
    }
}

/// An employee.
pub struct Employees {
    pub id: String,
    pub fio: String,
}

impl Employees {
    /// An employee with a fresh identifier.
    pub fn new(fio: &str) -> (r: Self)
        ensures
            v7_shape(r.id@),
            r.fio@ == fio@,
    {
        let now = unix_now();
        let id = new_v7_id(now as u64, fio.len() as u16);
        Employees { id, fio: fio.to_owned() }
    }
}


/// An employee who may take an order, with the station they would travel
/// from and the order's departure station when they are not at it.
pub type Candidate = (AvalibleEmployees, Option<(String, String)>);

pub type CandidateView = (AvalibleEmployeesView, Option<(Seq<char>, Seq<char>)>);

pub open spec fn travel_view(t: Option<(String, String)>) -> Option<(Seq<char>, Seq<char>)> {
    match t {
        Some((a, b)) => Some((a@, b@)),
        None => None,
    }
}

pub open spec fn candidate_view(c: Candidate) -> CandidateView {
    (c.0@, travel_view(c.1))
}

pub open spec fn candidates_view(v: Seq<Candidate>) -> Seq<CandidateView> {
    v.map_values(|c: Candidate| candidate_view(c))
}

pub open spec fn employees_view(v: Seq<AvalibleEmployees>) -> Seq<AvalibleEmployeesView> {
    v.map_values(|a: AvalibleEmployees| a@)
}

/// The employees at station `from`, in list order.
pub open spec fn on_station(aval: Seq<AvalibleEmployeesView>, from: Seq<char>) -> Seq<AvalibleEmployeesView>
    decreases aval.len(),
{
    if aval.len() == 0 {
        Seq::empty()
    } else if aval.last().station_id == from {
        on_station(aval.drop_last(), from).push(aval.last())
    } else {
        on_station(aval.drop_last(), from)
    }
}

/// The employees as candidates with the given travel.
pub open spec fn tagged(on: Seq<AvalibleEmployeesView>, travel: Option<(Seq<char>, Seq<char>)>) -> Seq<CandidateView> {
    on.map_values(|a: AvalibleEmployeesView| (a, travel))
}

/// The outcome of the search for employees.
pub enum SearchOutcome {
    Found(Seq<CandidateView>),
    NeedNearest,
    NoWorkers,
}

/// Going through the nearby stations from the `i`-th on, with the
/// candidates `acc` gathered so far: for each station the employees at the
/// departure station are added again, as travelling from that station,
/// until there are enough of them.
pub open spec fn extend_search(
    on: Seq<AvalibleEmployeesView>,
    from: Seq<char>,
    count: u32,
    stations: Seq<(Seq<char>, u64)>,
    acc: Seq<CandidateView>,
    i: int,
) -> SearchOutcome
    decreases stations.len() - i,
{
    if i < 0 || i >= stations.len() {
        if acc.len() > 0 { SearchOutcome::Found(acc) } else { SearchOutcome::NoWorkers }
    } else {
        let av = tagged(on, Some((stations[i].0, from)));
        if av.len() > 0 {
            let acc2 = acc + av;
            if count <= acc2.len() {
                SearchOutcome::Found(acc2)
            } else {
                extend_search(on, from, count, stations, acc2, i + 1)
            }
        } else {
            extend_search(on, from, count, stations, acc, i + 1)
        }
    }
}

/// The search for the employees of a request, given the employees on shift
/// and, once asked for, the stations near the departure station.
pub open spec fn search_outcome(
    ord: RequestOrderView,
    aval: Seq<AvalibleEmployeesView>,
    nearest: Option<Seq<(Seq<char>, u64)>>,
) -> SearchOutcome {
    let on = on_station(aval, ord.path_from);
    if on.len() > 0 && ord.employees_count <= on.len() {
        SearchOutcome::Found(tagged(on, None))
    } else {
        match nearest {
            None => SearchOutcome::NeedNearest,
            Some(st) => extend_search(on, ord.path_from, ord.employees_count, st, tagged(on, None), 0),
        }
    }
}

/// Every employee of `on_station(aval, from)` is at `from`.
pub proof fn lemma_on_station_at(aval: Seq<AvalibleEmployeesView>, from: Seq<char>)
    ensures
        forall|k: int| 0 <= k < on_station(aval, from).len() ==> (#[trigger] on_station(aval, from)[k]).station_id == from,
    decreases aval.len(),
{
    if aval.len() > 0 {
        lemma_on_station_at(aval.drop_last(), from);
        let prev = on_station(aval.drop_last(), from);
        assert forall|k: int| 0 <= k < on_station(aval, from).len() implies (#[trigger] on_station(aval, from)[k]).station_id == from by {
            if k < prev.len() {
                assert(on_station(aval, from)[k] == prev[k]);
            }
        }
    }
}

/// Whether every candidate comes from the employees at `from`.
pub open spec fn all_at(c: Seq<CandidateView>, from: Seq<char>) -> bool {
    forall|k: int| 0 <= k < c.len() ==> (#[trigger] c[k]).0.station_id == from
}

/// Going on through the nearby stations never loses a candidate already
/// gathered: with one gathered the search ends in `Found`, its list starting
/// with those gathered; it holds only employees at `from`, and it has fewer
/// than `count` only once every remaining station added its round.
pub proof fn lemma_extend_search(
    on: Seq<AvalibleEmployeesView>,
    from: Seq<char>,
    count: u32,
    stations: Seq<(Seq<char>, u64)>,
    acc: Seq<CandidateView>,
    i: int,
)
    requires
        0 <= i <= stations.len(),
        forall|k: int| 0 <= k < on.len() ==> (#[trigger] on[k]).station_id == from,
        all_at(acc, from),
    ensures
        extend_search(on, from, count, stations, acc, i) !is NeedNearest,
        acc.len() > 0 ==> (extend_search(on, from, count, stations, acc, i) matches SearchOutcome::Found(c)
            && acc.len() <= c.len() && c.take(acc.len() as int) == acc),
        acc.len() == 0 && on.len() == 0 ==> extend_search(on, from, count, stations, acc, i) is NoWorkers,
        extend_search(on, from, count, stations, acc, i) matches SearchOutcome::Found(c) ==> all_at(c, from)
            && (count <= c.len() || c.len() == acc.len() + on.len() * (stations.len() - i)),
    decreases stations.len() - i,
{
    if i < stations.len() {
        let av = tagged(on, Some((stations[i].0, from)));
        assert(av.len() == on.len());
        if av.len() > 0 {
            let acc2 = acc + av;
            assert(all_at(acc2, from)) by {
                assert forall|k: int| 0 <= k < acc2.len() implies (#[trigger] acc2[k]).0.station_id == from by {
                    if k >= acc.len() {
                        assert(acc2[k] == av[k - acc.len()]);
                        assert(on[k - acc.len()].station_id == from);
                    } else {
                        assert(acc2[k] == acc[k]);
                    }
                }
            }
            assert(acc2.take(acc.len() as int) =~= acc);
            if count <= acc2.len() {
            } else {
                lemma_extend_search(on, from, count, stations, acc2, i + 1);
                let r = extend_search(on, from, count, stations, acc2, i + 1);
                if let SearchOutcome::Found(c) = r {
                    assert(c.take(acc.len() as int) =~= acc2.take(acc.len() as int));
                    let n = on.len() as int;
                    let m = stations.len() - i;
                    assert(n * m == n + n * (m - 1)) by (nonlinear_arith);
                }
            }
        } else {
            lemma_extend_search(on, from, count, stations, acc, i + 1);
            let n = on.len() as int;
            let m = stations.len() - i;
            assert(n == 0);
            assert(n * m == 0 && n * (m - 1) == 0) by (nonlinear_arith)
                requires n == 0;
        }
    }
}

/// What the search for employees gives: with employees at the departure
/// station and the nearby stations given, always candidates, led by those
/// employees, all of them at the departure station, and fewer than asked
/// only when every nearby station added its round; without employees there
/// and the nearby stations given, a refusal; the nearby stations are asked
/// for exactly when the employees there are not enough.
pub proof fn law_search_keeps_candidates(
    ord: RequestOrderView,
    aval: Seq<AvalibleEmployeesView>,
    nearest: Option<Seq<(Seq<char>, u64)>>,
)
    ensures
        ({
            let on = on_station(aval, ord.path_from);
            &&& (search_outcome(ord, aval, nearest) is NeedNearest
                <==> (nearest is None && !(on.len() > 0 && ord.employees_count <= on.len())))
            &&& (nearest is Some && on.len() == 0) ==> search_outcome(ord, aval, nearest) is NoWorkers
            &&& (nearest is Some && on.len() > 0) ==> search_outcome(ord, aval, nearest) is Found
            &&& search_outcome(ord, aval, nearest) matches SearchOutcome::Found(c) ==> {
                &&& on.len() > 0
                &&& on.len() <= c.len()
                &&& c.take(on.len() as int) == tagged(on, None)
                &&& all_at(c, ord.path_from)
                &&& (ord.employees_count <= c.len()
                    || (nearest matches Some(st) && c.len() == on.len() * (st.len() + 1)))
            }
        }),
{
    let on = on_station(aval, ord.path_from);
    lemma_on_station_at(aval, ord.path_from);
    let t = tagged(on, None);
    assert(all_at(t, ord.path_from)) by {
        assert forall|k: int| 0 <= k < t.len() implies (#[trigger] t[k]).0.station_id == ord.path_from by {
            assert(on[k].station_id == ord.path_from);
        }
    }
    assert(t.take(on.len() as int) =~= t);
    if let Some(st) = nearest {
        lemma_extend_search(on, ord.path_from, ord.employees_count, st, t, 0);
        let n = on.len() as int;
        let m = st.len() as int;
        assert(n + n * m == n * (m + 1)) by (nonlinear_arith);
    }
}

pub open spec fn nearest_miss_message() -> Seq<char> {
    "По текущим параметрам заявки нет возможности поставить в работу сотрудника (или на доступных станциях на дату заявки никто не дежурит, либо сотрудники находятся дальше чем в 60 минутах езды от станции указанной в заявке)"@
}

pub open spec fn stations_list_view(v: Seq<(String, u64)>) -> Seq<(Seq<char>, u64)> {
    v.map_values(|p: (String, u64)| (p.0@, p.1))
}

/// A step of the search for employees: its result, or the need of the
/// stations near the departure station.
pub enum SearchStep {
    Done(Result<Vec<Candidate>, OrderError>),
    NeedNearest,
}

fn clone_candidate(c: &Candidate) -> (r: Candidate)
    ensures
        candidate_view(r) == candidate_view(*c),
{
    let travel = match &c.1 {
        Some((a, b)) => Some((a.clone(), b.clone())),
        None => None,
    };
    (c.0.clone(), travel)
}

fn tag_all(on: &Vec<AvalibleEmployees>, travel: &Option<(String, String)>) -> (r: Vec<Candidate>)
    ensures
        candidates_view(r@) == tagged(employees_view(on@), travel_view(*travel)),
{
    let ghost tv = travel_view(*travel);
    let mut r: Vec<Candidate> = Vec::new();
    let mut i: usize = 0;
    while i < on.len()
        invariant
            i <= on@.len(),
            tv == travel_view(*travel),
            candidates_view(r@) == tagged(employees_view(on@.take(i as int)), tv),
        decreases on@.len() - i,
    {
        let t = match travel {
            Some((a, b)) => Some((a.clone(), b.clone())),
            None => None,
        };
        let ghost old_r = r@;
        let c: Candidate = (on[i].clone(), t);
        r.push(c);
        assert(candidates_view(r@) =~= candidates_view(old_r).push((on@[i as int]@, tv)));
        assert(on@.take(i + 1) =~= on@.take(i as int).push(on@[i as int]));
        assert(tagged(employees_view(on@.take(i + 1)), tv) =~= tagged(employees_view(on@.take(i as int)), tv).push((on@[i as int]@, tv)));
        i = i + 1;
    }
    assert(on@.take(on@.len() as int) =~= on@);
    r
}

fn append_candidates(acc: &mut Vec<Candidate>, more: Vec<Candidate>)
    ensures
        candidates_view(final(acc)@) == candidates_view(old(acc)@) + candidates_view(more@),
{
    let mut more = more;
    let ghost a = candidates_view(acc@);
    let ghost m = candidates_view(more@);
    acc.append(&mut more);
    assert(candidates_view(acc@) =~= a + m);
}

/// The employees on shift at `from`, in list order.
pub fn employees_at(aval_all: &Vec<AvalibleEmployees>, from: &str) -> (r: Vec<AvalibleEmployees>)
    ensures
        employees_view(r@) == on_station(employees_view(aval_all@), from@),
{
    let mut r: Vec<AvalibleEmployees> = Vec::new();
    let mut i: usize = 0;
    while i < aval_all.len()
        invariant
            i <= aval_all@.len(),
            employees_view(r@) == on_station(employees_view(aval_all@.take(i as int)), from@),
        decreases aval_all@.len() - i,
    {
        assert(aval_all@.take(i + 1) =~= aval_all@.take(i as int).push(aval_all@[i as int]));
        assert(employees_view(aval_all@.take(i + 1)).drop_last() =~= employees_view(aval_all@.take(i as int)));
        if crate::text::str_eq(aval_all[i].station_id.as_str(), from) {
            let ghost old_r = r@;
            r.push(aval_all[i].clone());
            assert(employees_view(r@) =~= employees_view(old_r).push(aval_all@[i as int]@));
        }
        i = i + 1;
    }
    assert(aval_all@.take(aval_all@.len() as int) =~= aval_all@);
    r
}

/// Searches the employees for a request among those on shift: the employees
/// at the departure station if there are enough of them; otherwise, once the
/// stations near the departure station are given, more candidates for each
/// of them until there are enough, or as many as were found.
pub fn search_avalible_employees(
    ord: &RequestOrder,
    aval_all: &Vec<AvalibleEmployees>,
    nearest: Option<&Vec<(String, u64)>>,
) -> (r: SearchStep)
    ensures
        match search_outcome(ord@, employees_view(aval_all@), match nearest {
            Some(v) => Some(stations_list_view(v@)),
            None => None,
        }) {
            SearchOutcome::Found(c) => r matches SearchStep::Done(Ok(v)) && candidates_view(v@) == c,
            SearchOutcome::NeedNearest => r is NeedNearest,
            SearchOutcome::NoWorkers => r matches SearchStep::Done(Err(OrderError::NotFreeWorkers(m)))
                && m@ == nearest_miss_message(),
        },
        ({
            let on = on_station(employees_view(aval_all@), ord@.path_from);
            &&& ((nearest is Some && on.len() > 0) ==> r matches SearchStep::Done(Ok(_)))
            &&& (r matches SearchStep::Done(Ok(v)) ==> {
                &&& on.len() > 0
                &&& on.len() <= v@.len()
                &&& candidates_view(v@).take(on.len() as int) == tagged(on, None)
                &&& all_at(candidates_view(v@), ord@.path_from)
                &&& (ord@.employees_count <= v@.len()
                    || (nearest matches Some(st) && v@.len() == on.len() * (st@.len() + 1)))
            })
            &&& (r matches SearchStep::Done(Err(_)) ==> on.len() == 0 && nearest is Some)
            &&& (r is NeedNearest <==> (nearest is None && !(on.len() > 0 && ord@.employees_count <= on.len())))
        }),
{
    proof {
        law_search_keeps_candidates(ord@, employees_view(aval_all@), match nearest {
            Some(v) => Some(stations_list_view(v@)),
            None => None,
        });
        if let Some(v) = nearest {
            assert(stations_list_view(v@).len() == v@.len());
        }
    }
    let on = employees_at(aval_all, ord.path_from.as_str());
    let ghost onv = employees_view(on@);
    let mut avalible = tag_all(&on, &None);
    if avalible.len() > 0 && (ord.employees_count as usize) <= avalible.len() {
        return SearchStep::Done(Ok(avalible));
    }
    let stations = match nearest {
        Some(st) => st,
        None => return SearchStep::NeedNearest,
    };
    let ghost sv = stations_list_view(stations@);
    assert(candidates_view(avalible@) == tagged(onv, None));
    let mut i: usize = 0;
    while i < stations.len()
        invariant
            i <= stations@.len(),
            sv == stations_list_view(stations@),
            onv == employees_view(on@),
            onv == on_station(employees_view(aval_all@), ord@.path_from),
            !(onv.len() > 0 && ord@.employees_count <= onv.len()),
            nearest == Some(stations),
            extend_search(onv, ord@.path_from, ord@.employees_count, sv, candidates_view(avalible@), i as int)
                == extend_search(onv, ord@.path_from, ord@.employees_count, sv, tagged(onv, None), 0),
        decreases stations@.len() - i,
    {
        let travel = Some((stations[i].0.clone(), ord.path_from.clone()));
        let av = tag_all(&on, &travel);
        let ghost acc0 = candidates_view(avalible@);
        assert(travel_view(travel) == Some((sv[i as int].0, ord@.path_from)));
        assert(candidates_view(av@) == tagged(onv, Some((sv[i as int].0, ord@.path_from))));
        if av.len() > 0 {
            append_candidates(&mut avalible, av);
            assert(candidates_view(avalible@) == acc0 + tagged(onv, Some((sv[i as int].0, ord@.path_from))));
            if (ord.employees_count as usize) <= avalible.len() {
                assert(extend_search(onv, ord@.path_from, ord@.employees_count, sv, acc0, i as int)
                    == SearchOutcome::Found(candidates_view(avalible@)));
                proof {
                    law_search_keeps_candidates(ord@, employees_view(aval_all@), Some(sv));
                }
                return SearchStep::Done(Ok(avalible));
            }
        }
        i = i + 1;
    }
    if avalible.len() > 0 {
        SearchStep::Done(Ok(avalible))
    } else {
        SearchStep::Done(Err(OrderError::NotFreeWorkers(String::from_str("По текущим параметрам заявки нет возможности поставить в работу сотрудника (или на доступных станциях на дату заявки никто не дежурит, либо сотрудники находятся дальше чем в 60 минутах езды от станции указанной в заявке)"))))
    }
}


pub open spec fn orders_view(v: Seq<Order>) -> Seq<OrderView> {
    v.map_values(|o: Order| o@)
}

/// The accepted orders, in the order they were accepted.
pub struct OrderBook {
    orders: Vec<Order>,
}

impl View for OrderBook {
    type V = Seq<OrderView>;

    closed spec fn view(&self) -> Seq<OrderView> {
        orders_view(self.orders@)
    }
}

impl OrderBook {
    /// No orders.
    pub fn new() -> (r: Self)
        ensures
            r@ == Seq::<OrderView>::empty(),
    {
        let r = OrderBook { orders: Vec::new() };
        assert(r@ =~= Seq::<OrderView>::empty());
        r
    }

    pub fn len(&self) -> (n: usize)
        ensures
            n == self@.len(),
    {
        self.orders.len()
    }

    /// Records an accepted order.
    pub fn push(&mut self, o: Order)
        ensures
            final(self)@ == old(self)@.push(o@),
    {
        let ghost v = self@;
        self.orders.push(o);
        assert(self@ =~= v.push(o@));
    }

    /// Every order, in acceptance order.
    pub fn all(&self) -> (r: Vec<Order>)
        ensures
            orders_view(r@) == self@,
    {
        let mut r: Vec<Order> = Vec::new();
        let mut i: usize = 0;
        while i < self.orders.len()
            invariant
                i <= self.orders@.len(),
                orders_view(r@) == orders_view(self.orders@.take(i as int)),
            decreases self.orders@.len() - i,
        {
            let ghost old_r = r@;
            r.push(self.orders[i].clone());
            assert(orders_view(r@) =~= orders_view(old_r).push(self.orders@[i as int]@));
            assert(self.orders@.take(i + 1) =~= self.orders@.take(i as int).push(self.orders@[i as int]));
            assert(orders_view(r@) =~= orders_view(self.orders@.take(i + 1)));
            i = i + 1;
        }
        assert(self.orders@.take(self.orders@.len() as int) =~= self.orders@);
        r
    }

    /// The first order with the given id.
    pub fn find(&self, id: &str) -> (r: Option<Order>)
        ensures
            r matches Some(o) ==> exists|i: int| 0 <= i < self@.len() && self@[i].id == id@ && o@ == self@[i]
                && forall|j: int| 0 <= j < i ==> (#[trigger] self@[j]).id != id@,
            r is None ==> forall|j: int| 0 <= j < self@.len() ==> (#[trigger] self@[j]).id != id@,
    {
        let mut i: usize = 0;
        while i < self.orders.len()
            invariant
                i <= self.orders@.len(),
                forall|j: int| 0 <= j < i ==> (#[trigger] self@[j]).id != id@,
            decreases self.orders@.len() - i,
        {
            if crate::text::str_eq(self.orders[i].id.as_str(), id) {
                assert(self@[i as int] == self.orders@[i as int]@);
                return Some(self.orders[i].clone());
            }
            assert(self@[i as int] == self.orders@[i as int]@);
            i = i + 1;
        }
        None
    }

    /// Whether some order lists `worker` among its employees.
    fn any_holds(&self, worker: &str) -> (r: bool)
        ensures
            r == any_holds(self@, worker@),
    {
        let mut i: usize = 0;
        while i < self.orders.len()
            invariant
                i <= self.orders@.len(),
                forall|j: int| 0 <= j < i ==> !holds_worker(#[trigger] self@[j], worker@),
            decreases self.orders@.len() - i,
        {
            assert(self@[i as int] == self.orders@[i as int]@);
            if lists_worker(&self.orders[i].employess, worker) {
                return true;
            }
            i = i + 1;
        }
        false
    }

    /// Adds `employee` once to `picks` for every order that lists `worker`
    /// and whose busy time does not overlap `[o1, o2)`.
    fn free_picks(&self, worker: &str, employee: &String, o1: Date, o2: Date, picks: &mut Vec<String>)
        ensures
            crate::registry::strings_view(final(picks)@) == crate::registry::strings_view(old(picks)@)
                + free_picks(self@, worker@, employee@, o1, o2),
    {
        let ghost start = crate::registry::strings_view(picks@);
        let mut i: usize = 0;
        while i < self.orders.len()
            invariant
                i <= self.orders@.len(),
                crate::registry::strings_view(picks@) == start + free_picks(self@.take(i as int), worker@, employee@, o1, o2),
            decreases self.orders@.len() - i,
        {
            assert(self@.take(i + 1).drop_last() =~= self@.take(i as int));
            assert(self@.take(i + 1).last() == self.orders@[i as int]@);
            let o = &self.orders[i];
            let timeline = vec![(o.start_work, o.end_work)];
            assert(timeline@.len() == 1);
            assert(timeline@[0].0 == o.start_work && timeline@[0].1 == o.end_work);
            let ghost prev = free_picks(self@.take(i as int), worker@, employee@, o1, o2);
            let held = lists_worker(&o.employess, worker);
            let clash = Date::in_range((&o1, &o2), &timeline);
            assert(clash is None <==> !overlaps(o1, o2, o.start_work, o.end_work));
            if held && clash.is_none() {
                let ghost before = crate::registry::strings_view(picks@);
                picks.push(employee.clone());
                assert(crate::registry::strings_view(picks@) =~= before.push(employee@));
                assert(free_picks(self@.take(i + 1), worker@, employee@, o1, o2) == prev.push(employee@));
                assert(start + prev.push(employee@) =~= (start + prev).push(employee@));
            } else {
                assert(free_picks(self@.take(i + 1), worker@, employee@, o1, o2) == prev);
            }
            i = i + 1;
        }
        assert(self@.take(self@.len() as int) =~= self@);
    }
}

fn lists_worker(employess: &Vec<String>, worker: &str) -> (r: bool)
    ensures
        r == crate::registry::strings_view(employess@).contains(worker@),
{
    let mut k: usize = 0;
    while k < employess.len()
        invariant
            k <= employess@.len(),
            forall|q: int| 0 <= q < k ==> employess@[q]@ != worker@,
        decreases employess@.len() - k,
    {
        if crate::text::str_eq(employess[k].as_str(), worker) {
            assert(crate::registry::strings_view(employess@)[k as int] == worker@);
            return true;
        }
        k = k + 1;
    }
    assert(!crate::registry::strings_view(employess@).contains(worker@)) by {
        if crate::registry::strings_view(employess@).contains(worker@) {
            let q = choose|q: int| 0 <= q < crate::registry::strings_view(employess@).len()
                && crate::registry::strings_view(employess@)[q] == worker@;
            assert(employess@[q]@ == worker@);
        }
    }
    false
}

/// Whether the order lists `worker` among its employees.
pub open spec fn holds_worker(o: OrderView, worker: Seq<char>) -> bool {
    o.employess.contains(worker)
}

pub open spec fn any_holds(orders: Seq<OrderView>, worker: Seq<char>) -> bool {
    exists|i: int| 0 <= i < orders.len() && holds_worker(#[trigger] orders[i], worker)
}

/// `employee` once for every order that lists `worker` and whose busy time
/// does not overlap `[o1, o2)`, in order.
pub open spec fn free_picks(orders: Seq<OrderView>, worker: Seq<char>, employee: Seq<char>, o1: Date, o2: Date) -> Seq<Seq<char>>
    decreases orders.len(),
{
    if orders.len() == 0 {
        Seq::empty()
    } else {
        let prev = free_picks(orders.drop_last(), worker, employee, o1, o2);
        let o = orders.last();
        if holds_worker(o, worker) && !overlaps(o1, o2, o.start_work, o.end_work) {
            prev.push(employee)
        } else {
            prev
        }
    }
}

/// What the candidate adds to an order's employees: its employee, if no
/// order lists the candidate; otherwise its employee once for each order
/// listing the candidate that leaves `[o1, o2)` free.
pub open spec fn picks_for(orders: Seq<OrderView>, a: AvalibleEmployeesView, o1: Date, o2: Date) -> Seq<Seq<char>> {
    if !any_holds(orders, a.id) {
        seq![a.employee_id]
    } else {
        free_picks(orders, a.id, a.employee_id, o1, o2)
    }
}

/// The employees chosen from the `i`-th candidate on, after `acc`: the
/// picks of each candidate in turn, stopping as soon as their number equals
/// `count`.
pub open spec fn assign_from(
    orders: Seq<OrderView>,
    cands: Seq<CandidateView>,
    count: u32,
    o1: Date,
    o2: Date,
    acc: Seq<Seq<char>>,
    i: int,
) -> Seq<Seq<char>>
    decreases cands.len() - i,
{
    if i < 0 || i >= cands.len() {
        acc
    } else {
        let acc2 = acc + picks_for(orders, cands[i].0, o1, o2);
        if acc2.len() == count {
            acc2
        } else {
            assign_from(orders, cands, count, o1, o2, acc2, i + 1)
        }
    }
}

/// The employees assigned to a new order busy during `[o1, o2)`.
pub open spec fn assigned_employees(orders: Seq<OrderView>, cands: Seq<CandidateView>, count: u32, o1: Date, o2: Date) -> Seq<Seq<char>> {
    assign_from(orders, cands, count, o1, o2, Seq::empty(), 0)
}

/// The largest of the travel times, or 0.
pub open spec fn max_minutes(times: Seq<u32>) -> u32
    decreases times.len(),
{
    if times.len() == 0 {
        0
    } else {
        let m = max_minutes(times.drop_last());
        if m < times.last() { times.last() } else { m }
    }
}

/// The longest travel time is at least every travel time and is one of
/// them; with no travel it is 0.
pub proof fn law_longest_travel(times: Seq<u32>)
    ensures
        forall|i: int| 0 <= i < times.len() ==> #[trigger] times[i] <= max_minutes(times),
        times.len() > 0 ==> times.contains(max_minutes(times)),
        times.len() == 0 ==> max_minutes(times) == 0,
    decreases times.len(),
{
    if times.len() > 0 {
        let prev = times.drop_last();
        law_longest_travel(prev);
        assert forall|i: int| 0 <= i < times.len() implies #[trigger] times[i] <= max_minutes(times) by {
            if i < prev.len() {
                assert(times[i] == prev[i]);
            }
        }
        if prev.len() > 0 && !(max_minutes(prev) < times.last()) {
            let j = choose|j: int| 0 <= j < prev.len() && prev[j] == max_minutes(prev);
            assert(times[j] == prev[j]);
        } else {
            assert(times[times.len() - 1] == times.last());
        }
    }
}

/// The order made of a request: its employees are busy from the request's
/// time less the longest travel of an employee from another station, to the
/// request's time plus the travel of the passenger.
pub open spec fn drafted_order(ord: RequestOrderView, travel_minutes: Seq<u32>, path_minutes: u32, employess: Seq<Seq<char>>) -> OrderView {
    OrderView {
        id: ord.id,
        fio: ord.fio,
        request_date: ord.request_date,
        path_from: ord.path_from,
        path_to: ord.path_to,
        average_path_time: path_minutes,
        note: ord.note,
        place: ord.place,
        start_work: Date { timestamp: (ord.request_date.timestamp - 60 * max_minutes(travel_minutes)) as i64 },
        end_work: Date { timestamp: (ord.request_date.timestamp + 60 * path_minutes) as i64 },
        employess,
    }
}

/// Whether `o` is the request `ord` accepted as it was made: the request's
/// own fields unchanged, the passenger's travel time, and the employees busy
/// from the longest of the travel times before the request's time (the
/// request's time itself with no travel) to the passenger's arrival.
pub open spec fn accepted_as_asked(o: OrderView, ord: RequestOrderView, travel: Seq<u32>, path_minutes: u32) -> bool {
    &&& o.id == ord.id
    &&& o.fio == ord.fio
    &&& o.path_from == ord.path_from
    &&& o.path_to == ord.path_to
    &&& o.request_date == ord.request_date
    &&& o.note == ord.note
    &&& o.place == ord.place
    &&& o.average_path_time == path_minutes
    &&& o.end_work.timestamp == ord.request_date.timestamp + 60 * path_minutes
    &&& forall|i: int| 0 <= i < travel.len() ==> o.start_work.timestamp <= ord.request_date.timestamp - 60 * #[trigger] travel[i]
    &&& travel.len() == 0 ==> o.start_work == ord.request_date
    &&& travel.len() > 0 ==> exists|i: int| 0 <= i < travel.len()
        && o.start_work.timestamp == ord.request_date.timestamp - 60 * #[trigger] travel[i]
}

/// The order drafted from a request is that request accepted as it was
/// made.
pub proof fn law_order_keeps_request(ord: RequestOrderView, travel: Seq<u32>, path_minutes: u32, employess: Seq<Seq<char>>)
    requires
        window_fits(ord, travel, path_minutes),
    ensures
        accepted_as_asked(drafted_order(ord, travel, path_minutes, employess), ord, travel, path_minutes),
{
    law_longest_travel(travel);
    let o = drafted_order(ord, travel, path_minutes, employess);
    let m = max_minutes(travel);
    assert(o.start_work.timestamp == ord.request_date.timestamp - 60 * m);
    assert forall|i: int| 0 <= i < travel.len() implies o.start_work.timestamp <= ord.request_date.timestamp - 60 * #[trigger] travel[i] by {
        assert(travel[i] <= m);
    }
    if travel.len() > 0 {
        let j = choose|j: int| 0 <= j < travel.len() && travel[j] == m;
        assert(o.start_work.timestamp == ord.request_date.timestamp - 60 * travel[j]);
    } else {
        assert(m == 0);
    }
}

/// The busy time of the order made of a request.
pub open spec fn work_start(ord: RequestOrderView, travel_minutes: Seq<u32>) -> Date {
    Date { timestamp: (ord.request_date.timestamp - 60 * max_minutes(travel_minutes)) as i64 }
}

pub open spec fn work_end(ord: RequestOrderView, path_minutes: u32) -> Date {
    Date { timestamp: (ord.request_date.timestamp + 60 * path_minutes) as i64 }
}

pub open spec fn no_free_message() -> Seq<char> {
    "нет свободных сотрудников"@
}

/// The request's time can be moved by the travel times.
pub open spec fn window_fits(ord: RequestOrderView, travel_minutes: Seq<u32>, path_minutes: u32) -> bool {
    &&& i64::MIN <= ord.request_date.timestamp - 60 * max_minutes(travel_minutes)
    &&& ord.request_date.timestamp + 60 * path_minutes <= i64::MAX
}

fn max_of(times: &Vec<u32>) -> (r: u32)
    ensures
        r == max_minutes(times@),
{
    let mut m: u32 = 0;
    let mut i: usize = 0;
    while i < times.len()
        invariant
            i <= times@.len(),
            m == max_minutes(times@.take(i as int)),
        decreases times@.len() - i,
    {
        assert(times@.take(i + 1).drop_last() =~= times@.take(i as int));
        if m < times[i] {
            m = times[i];
        }
        i = i + 1;
    }
    assert(times@.take(times@.len() as int) =~= times@);
    m
}

/// Makes an order of a request and chooses its employees among the
/// candidates, given the travel times of the candidates who come from
/// another station and the passenger's travel time. An order with at least
/// one employee is accepted and recorded.
pub fn search_in_orders(
    book: &mut OrderBook,
    ord: &RequestOrder,
    avalible: &Vec<Candidate>,
    travel_minutes: &Vec<u32>,
    path_minutes: u32,
) -> (r: Result<Order, OrderError>)
    requires
        window_fits(ord@, travel_minutes@, path_minutes),
    ensures
        ({
            let emps = assigned_employees(old(book)@, candidates_view(avalible@), ord@.employees_count,
                work_start(ord@, travel_minutes@), work_end(ord@, path_minutes));
            if emps.len() > 0 {
                r matches Ok(o) && o@ == drafted_order(ord@, travel_minutes@, path_minutes, emps)
                    && final(book)@ == old(book)@.push(o@)
            } else {
                r matches Err(OrderError::NotFreeWorkers(m)) && m@ == no_free_message()
                    && final(book)@ == old(book)@
            }
        }),
        r matches Ok(o) ==> accepted_as_asked(o@, ord@, travel_minutes@, path_minutes) && o@.employess.len() > 0,
{
    proof { law_order_keeps_request(ord@, travel_minutes@, path_minutes, assigned_employees(book@, candidates_view(avalible@), ord@.employees_count, work_start(ord@, travel_minutes@), work_end(ord@, path_minutes))); }
    let worker_can_start_from = max_of(travel_minutes);
    let o1 = ord.request_date.sub_minutes(worker_can_start_from as i64);
    let o2 = ord.request_date.add_minutes(path_minutes as i64);
    let ghost orders = book@;
    let ghost cands = candidates_view(avalible@);
    let count = ord.employees_count;
    let mut employess: Vec<String> = Vec::new();
    let mut i: usize = 0;
    while i < avalible.len()
        invariant_except_break
            assign_from(orders, cands, count, o1, o2, crate::registry::strings_view(employess@), i as int)
                == assigned_employees(orders, cands, count, o1, o2),
        invariant
            i <= avalible@.len(),
            book@ == orders,
            cands == candidates_view(avalible@),
        ensures
            crate::registry::strings_view(employess@) == assigned_employees(orders, cands, count, o1, o2),
        decreases avalible@.len() - i,
    {
        let ghost acc = crate::registry::strings_view(employess@);
        let a = &avalible[i].0;
        assert(cands[i as int].0 == a@);
        if !book.any_holds(a.id.as_str()) {
            employess.push(a.employee_id.clone());
            assert(crate::registry::strings_view(employess@) =~= acc + seq![a.employee_id@]);
        } else {
            book.free_picks(a.id.as_str(), &a.employee_id, o1, o2, &mut employess);
        }
        assert(crate::registry::strings_view(employess@) == acc + picks_for(orders, cands[i as int].0, o1, o2));
        if employess.len() == count as usize {
            break;
        }
        i = i + 1;
    }
    if employess.len() > 0 {
        let new_order = Order {
            id: ord.id.clone(),
            fio: ord.fio.clone(),
            request_date: ord.request_date,
            path_from: ord.path_from.clone(),
            path_to: ord.path_to.clone(),
            average_path_time: path_minutes,
            note: clone_opt_string(&ord.note),
            place: ord.place,
            start_work: o1,
            end_work: o2,
            employess,
        };
        book.push(new_order.clone());
        Ok(new_order)
    } else {
        Err(OrderError::NotFreeWorkers(String::from_str("нет свободных сотрудников")))
    }
}

pub open spec fn order_refused_message() -> Seq<char> {
    "По текущим параметрам заявки нет возможности поставить в работу сотрудника (или на доступных станциях на дату заявки никто не дежурит, либо сотрудники находятся дальше чем в 10 минутах езды от станции указанной в заявке)"@
}

/// The refusal of a request that cannot be staffed.
pub fn refused_order() -> (r: OrderError)
    ensures
        r matches OrderError::NotFreeWorkers(m) && m@ == order_refused_message(),
{
    OrderError::NotFreeWorkers(String::from_str("По текущим параметрам заявки нет возможности поставить в работу сотрудника (или на доступных станциях на дату заявки никто не дежурит, либо сотрудники находятся дальше чем в 10 минутах езды от станции указанной в заявке)"))
}

/// Accepts a request with the candidates found for it: as
/// `search_in_orders`, but a refusal is reported with the general message.
pub fn add_order(
    book: &mut OrderBook,
    ord: &RequestOrder,
    avalible: &Vec<Candidate>,
    travel_minutes: &Vec<u32>,
    path_minutes: u32,
) -> (r: Result<Order, OrderError>)
    requires
        window_fits(ord@, travel_minutes@, path_minutes),
    ensures
        ({
            let emps = assigned_employees(old(book)@, candidates_view(avalible@), ord@.employees_count,
                work_start(ord@, travel_minutes@), work_end(ord@, path_minutes));
            if emps.len() > 0 {
                r matches Ok(o) && o@ == drafted_order(ord@, travel_minutes@, path_minutes, emps)
                    && final(book)@ == old(book)@.push(o@)
            } else {
                r matches Err(OrderError::NotFreeWorkers(m)) && m@ == order_refused_message()
                    && final(book)@ == old(book)@
            }
        }),
        r matches Ok(o) ==> accepted_as_asked(o@, ord@, travel_minutes@, path_minutes) && o@.employess.len() > 0,
{
    proof { law_order_keeps_request(ord@, travel_minutes@, path_minutes, assigned_employees(book@, candidates_view(avalible@), ord@.employees_count, work_start(ord@, travel_minutes@), work_end(ord@, path_minutes))); }
    match search_in_orders(book, ord, avalible, travel_minutes, path_minutes) {
        Ok(o) => Ok(o),
        Err(_) => Err(refused_order()),
    }
}

pub open spec fn no_orders_message() -> Seq<char> {
    "Не найдено ни одной заявки"@
}

pub open spec fn order_missing_message(id: Seq<char>) -> Seq<char> {
    "Заявка с id "@ + id + " не найдена"@
}

/// Every accepted order; an error while no order book exists yet.
pub fn get_orders(book: Option<&OrderBook>) -> (r: Result<Vec<Order>, String>)
    ensures
        book is None ==> (r matches Err(m) && m@ == no_orders_message()),
        book matches Some(b) ==> (r matches Ok(v) && orders_view(v@) == b@),
{
    match book {
        Some(b) => Ok(b.all()),
        None => Err(String::from_str("Не найдено ни одной заявки")),
    }
}

/// The first accepted order with the given id.
pub fn get_orders_by_id(book: Option<&OrderBook>, id: &str) -> (r: Result<Order, String>)
    ensures
        book is None ==> (r matches Err(m) && m@ == no_orders_message()),
        book matches Some(b) ==> match r {
            Ok(o) => exists|i: int| 0 <= i < b@.len() && b@[i].id == id@ && o@ == b@[i]
                && forall|j: int| 0 <= j < i ==> (#[trigger] b@[j]).id != id@,
            Err(m) => m@ == order_missing_message(id@) && forall|j: int| 0 <= j < b@.len() ==> (#[trigger] b@[j]).id != id@,
        },
{
    match book {
        Some(b) => match b.find(id) {
            Some(o) => Ok(o),
            None => {
                let mut m = String::from_str("Заявка с id ");
                m.append(id);
                m.append(" не найдена");
                Err(m)
            },
        },
        None => Err(String::from_str("Не найдено ни одной заявки")),
    }
}


/// The start and end hours of a shift written `HH:MM-HH:MM`.
pub open spec fn shift_hours(time_work: Seq<char>) -> Option<(int, int)> {
    match split_once(time_work, '-') {
        None => None,
        Some((start, end)) => match (split_once(start, ':'), split_once(end, ':')) {
            (Some((sh, _)), Some((eh, _))) => match (parse_int(sh), parse_int(eh)) {
                (Some(a), Some(b)) => Some((a, b)),
                _ => None,
            },
            _ => None,
        },
    }
}

/// The hours of a shift, when it is written `HH:MM-HH:MM`.
pub fn parse_shift(time_work: &str) -> (r: Option<(i64, i64)>)
    ensures
        match r {
            Some((a, b)) => shift_hours(time_work@) == Some((a as int, b as int)),
            None => shift_hours(time_work@) is None,
        },
{
    let (start, end) = match split_once_char(time_work, '-') {
        Some(p) => p,
        None => return None,
    };
    let sh = match split_once_char(start.as_str(), ':') {
        Some((h, _)) => h,
        None => return None,
    };
    let eh = match split_once_char(end.as_str(), ':') {
        Some((h, _)) => h,
        None => return None,
    };
    match (parse_i64(sh.as_str()), parse_i64(eh.as_str())) {
        (Some(a), Some(b)) => Some((a, b)),
        _ => None,
    }
}

/// A working day of an employee, as the schedule service lists it.
pub struct Workday {
    pub id: String,
    pub employee_id: String,
    /// The day of the shift.
    pub date_work: Date,
    /// The hours of the shift (`07:00-19:00`, `20:00-08:00`, ...).
    pub time_work: String,
    /// The state of the day; it holds the station of the employee.
    pub state_wd: String,
    /// An extra shift.
    pub date_dop_smena: Option<String>,
    /// Training away from work.
    pub date_ucheba: Option<String>,
    /// Changed working hours.
    pub date_change: Option<String>,
    /// Internship.
    pub intern: Option<String>,
}

/// A shift's hours can be turned into times.
pub open spec fn shift_fits(date: Date, hours: (int, int)) -> bool {
    &&& i64::MIN <= hours.0 * 3600 <= i64::MAX
    &&& i64::MIN <= hours.1 * 3600 <= i64::MAX
    &&& i64::MIN <= date.timestamp + hours.0 * 3600 <= i64::MAX
    &&& i64::MIN <= date.timestamp + hours.1 * 3600 <= i64::MAX
}

impl Workday {
    /// The start and end of the shift: the day of the shift moved by the
    /// starting and the ending hour.
    pub fn work_dates_range(&self) -> (r: (Date, Date))
        requires
            shift_hours(self.time_work@) matches Some(h) && shift_fits(self.date_work, h),
        ensures
            shift_hours(self.time_work@) matches Some((a, b)) && r.0.timestamp == self.date_work.timestamp + a * 3600
                && r.1.timestamp == self.date_work.timestamp + b * 3600,
    {
        let (a, b) = match parse_shift(self.time_work.as_str()) {
            Some(h) => h,
            None => {
                assert(false);
                (0, 0)
            },
        };
        assert(i64::MIN <= a * 60 <= i64::MAX) by (nonlinear_arith)
            requires i64::MIN <= a * 3600 <= i64::MAX;
        assert(i64::MIN <= b * 60 <= i64::MAX) by (nonlinear_arith)
            requires i64::MIN <= b * 3600 <= i64::MAX;
        let start = self.date_work.add_minutes(a * 60);
        let end = self.date_work.add_minutes(b * 60);
        (start, end)
    }
}

/// The station of an employee on a working day with no state given.
pub open spec fn default_station() -> Seq<char> {
    "nd52567902"@
}

impl AvalibleEmployees {
    /// The employee on shift on a working day: at the station in the day's
    /// state, or at the default station when the state is empty.
    pub fn from_workday(value: &Workday) -> (r: AvalibleEmployees)
        ensures
            v7_shape(r@.id),
            r@.employee_id == value.employee_id@,
            r@.date == value.date_work,
            r@.time == value.time_work@,
            r@.station_id == (if value.state_wd@.len() == 0 { default_station() } else { value.state_wd@ }),
            !r@.is_busy,
    {
        let empty = value.state_wd.as_str().unicode_len() == 0;
        let station_id: &str = if empty { "nd52567902" } else { value.state_wd.as_str() };
        AvalibleEmployees::new(value.employee_id.as_str(), value.date_work, value.time_work.as_str(), station_id)
    }
}

/// The employees on shift on the given working days, one per day in order.
pub fn get_avalible_employees(wd: &Vec<Workday>) -> (r: Vec<AvalibleEmployees>)
    ensures
        r@.len() == wd@.len(),
        forall|i: int| 0 <= i < wd@.len() ==> {
            &&& (#[trigger] r@[i])@.employee_id == wd@[i].employee_id@
            &&& r@[i]@.date == wd@[i].date_work
            &&& r@[i]@.time == wd@[i].time_work@
            &&& r@[i]@.station_id == (if wd@[i].state_wd@.len() == 0 { default_station() } else { wd@[i].state_wd@ })
            &&& !r@[i]@.is_busy
        },
{
    let mut r: Vec<AvalibleEmployees> = Vec::new();
    let mut i: usize = 0;
    while i < wd.len()
        invariant
            i <= wd@.len(),
            r@.len() == i,
            forall|j: int| 0 <= j < i ==> {
                &&& (#[trigger] r@[j])@.employee_id == wd@[j].employee_id@
                &&& r@[j]@.date == wd@[j].date_work
                &&& r@[j]@.time == wd@[j].time_work@
                &&& r@[j]@.station_id == (if wd@[j].state_wd@.len() == 0 { default_station() } else { wd@[j].state_wd@ })
                &&& !r@[j]@.is_busy
            },
        decreases wd@.len() - i,
    {
        r.push(AvalibleEmployees::from_workday(&wd[i]));
        i = i + 1;
    }
    r
}

/// The employees of the list at the station `id` on the day of `order_date`.
pub open spec fn at_station_on(aval: Seq<AvalibleEmployeesView>, id: Seq<char>, order_date: Date) -> Seq<AvalibleEmployeesView>
    decreases aval.len(),
{
    if aval.len() == 0 {
        Seq::empty()
    } else {
        let prev = at_station_on(aval.drop_last(), id, order_date);
        let a = aval.last();
        if a.station_id == id && a.date.day() == order_date.day() { prev.push(a) } else { prev }
    }
}

/// The employees `at_station_on` finds are at the station on the order's
/// day, and every employee of the list at the station on that day is found.
pub proof fn law_shift_on_order_day(aval: Seq<AvalibleEmployeesView>, id: Seq<char>, order_date: Date)
    ensures
        forall|k: int| 0 <= k < at_station_on(aval, id, order_date).len()
            ==> (#[trigger] at_station_on(aval, id, order_date)[k]).station_id == id
                && at_station_on(aval, id, order_date)[k].date.day() == order_date.day(),
        forall|j: int| 0 <= j < aval.len() && (#[trigger] aval[j]).station_id == id && aval[j].date.day() == order_date.day()
            ==> at_station_on(aval, id, order_date).contains(aval[j]),
    decreases aval.len(),
{
    if aval.len() > 0 {
        let prev = aval.drop_last();
        law_shift_on_order_day(prev, id, order_date);
        let p = at_station_on(prev, id, order_date);
        let r = at_station_on(aval, id, order_date);
        assert forall|k: int| 0 <= k < r.len() implies (#[trigger] r[k]).station_id == id && r[k].date.day() == order_date.day() by {
            if k < p.len() {
                assert(r[k] == p[k]);
            }
        }
        assert forall|j: int| 0 <= j < aval.len() && (#[trigger] aval[j]).station_id == id && aval[j].date.day() == order_date.day()
            implies r.contains(aval[j]) by {
            if j < prev.len() {
                assert(prev[j] == aval[j]);
                let q = choose|q: int| 0 <= q < p.len() && p[q] == prev[j];
                assert(r[q] == p[q]);
            } else {
                assert(r[r.len() - 1] == aval[j]);
            }
        }
    }
}

/// The employees on shift at the station `id` on the day of the order.
pub fn search_by_station(ava: &Vec<AvalibleEmployees>, id: &str, order_date: &Date) -> (r: Vec<AvalibleEmployees>)
    ensures
        employees_view(r@) == at_station_on(employees_view(ava@), id@, *order_date),
        forall|k: int| 0 <= k < r@.len() ==> (#[trigger] r@[k])@.station_id == id@ && r@[k].date.day() == order_date.day(),
        forall|j: int| 0 <= j < ava@.len() && (#[trigger] ava@[j])@.station_id == id@ && ava@[j].date.day() == order_date.day()
            ==> employees_view(r@).contains(ava@[j]@),
{
    proof { law_shift_on_order_day(employees_view(ava@), id@, *order_date); }
    let mut r: Vec<AvalibleEmployees> = Vec::new();
    let mut i: usize = 0;
    while i < ava.len()
        invariant
            i <= ava@.len(),
            employees_view(r@) == at_station_on(employees_view(ava@.take(i as int)), id@, *order_date),
        decreases ava@.len() - i,
    {
        assert(ava@.take(i + 1) =~= ava@.take(i as int).push(ava@[i as int]));
        assert(employees_view(ava@.take(i + 1)).drop_last() =~= employees_view(ava@.take(i as int)));
        if crate::text::str_eq(ava[i].station_id.as_str(), id) && ava[i].date.date_is_equalis(order_date) {
            let ghost old_r = r@;
            r.push(ava[i].clone());
            assert(employees_view(r@) =~= employees_view(old_r).push(ava@[i as int]@));
        }
        i = i + 1;
    }
    assert(ava@.take(ava@.len() as int) =~= ava@);
    proof {
        assert forall|k: int| 0 <= k < r@.len() implies (#[trigger] r@[k])@.station_id == id@ && r@[k].date.day() == order_date.day() by {
            assert(employees_view(r@)[k] == r@[k]@);
        }
        assert forall|j: int| 0 <= j < ava@.len() && (#[trigger] ava@[j])@.station_id == id@ && ava@[j].date.day() == order_date.day()
            implies employees_view(r@).contains(ava@[j]@) by {
            assert(employees_view(ava@)[j] == ava@[j]@);
        }
    }
    r
}

/// The employees of the demonstration data set: twenty people, four of them
/// on shift on 2 June 2024 from 07:00 to 19:00 at four stations.
pub fn add_test_workers() -> (r: (Vec<Employees>, Vec<AvalibleEmployees>))
    ensures
        r.0@.len() == 20,
        r.1@.len() == 4,
        r.1@[0]@.employee_id == r.0@[3].id@ && r.1@[0]@.station_id == "nd77715428"@,
        r.1@[1]@.employee_id == r.0@[7].id@ && r.1@[1]@.station_id == "nd86121438"@,
        r.1@[2]@.employee_id == r.0@[4].id@ && r.1@[2]@.station_id == "nd22676407"@,
        r.1@[3]@.employee_id == r.0@[2].id@ && r.1@[3]@.station_id == "nd52567902"@,
        forall|i: int| 0 <= i < 4 ==> (#[trigger] r.1@[i])@.date.timestamp == 1717286400 && r.1@[i]@.time == "07:00-19:00"@,
{
    let mut emp: Vec<Employees> = Vec::new();
    emp.push(Employees::new("Карасев Артём Ильич"));
    emp.push(Employees::new("Кузнецов Иван Ильич"));
    emp.push(Employees::new("Калачев Михаил Романович"));
    emp.push(Employees::new("Латышева Нина Григорьевна"));
    emp.push(Employees::new("Орлов Павел Тимофеевич"));
    emp.push(Employees::new("Голованова Дарина Львовна"));
    emp.push(Employees::new("Соколова Варвара Денисовна"));
    emp.push(Employees::new("Аникина София Петровна"));
    emp.push(Employees::new("Гусева Агата Глебовна"));
    emp.push(Employees::new("Мельников Виктор Егорович"));
    emp.push(Employees::new("Полякова Вера Святославовна"));
    emp.push(Employees::new("Богомолов Лев Владимирович"));
    emp.push(Employees::new("Иванова Ульяна Данииловна"));
    emp.push(Employees::new("Еремина Виктория Леонидовна"));
    emp.push(Employees::new("Комарова Мирослава Александровна"));
    emp.push(Employees::new("Киселева Виктория Егоровна"));
    emp.push(Employees::new("Рудакова Елизавета Родионовна"));
    emp.push(Employees::new("Королева Таисия Максимовна"));
    emp.push(Employees::new("Мартынов Никита Константинович"));
    emp.push(Employees::new("Сахаров Захар Андреевич"));
    // 2 June 2024, 00:00 UTC
    let day = Date::from_timestamp(1717286400);
    let mut ava: Vec<AvalibleEmployees> = Vec::new();
    ava.push(AvalibleEmployees::new(emp[3].id.as_str(), day, "07:00-19:00", "nd77715428"));
    ava.push(AvalibleEmployees::new(emp[7].id.as_str(), day, "07:00-19:00", "nd86121438"));
    ava.push(AvalibleEmployees::new(emp[4].id.as_str(), day, "07:00-19:00", "nd22676407"));
    ava.push(AvalibleEmployees::new(emp[2].id.as_str(), day, "07:00-19:00", "nd52567902"));
    (emp, ava)
}

} // verus!
