//! The envelope of the station service's answers and the query parameters
//! of the services.
use vstd::prelude::*;
use vstd::string::*;
use crate::text::join;

verus! {

/// An answer of the station service: whether the call succeeded, an error
/// message, and the object asked for.
pub struct Response<T> {
    pub success: bool,
    pub message: String,
    pub response_object: Option<T>,
}

impl<T> Response<T> {
    /// A successful answer carrying `obj`.
    pub fn new(obj: T) -> (r: Self)
        ensures
            r.success,
            r.message@ == Seq::<char>::empty(),
            r.response_object == Some(obj),
    {
        Response { success: true, message: String::new(), response_object: Some(obj) }
    }

    /// A failed answer with the message `e`.
    pub fn from_err(e: String) -> (r: Self)
        ensures
            !r.success,
            r.message@ == e@,
            r.response_object is None,
    {
        Response { success: false, message: e, response_object: None }
    }
}

/// A failed answer with no object type.
pub fn from_err(e: String) -> (r: Response<bool>)
    ensures
        !r.success,
        r.message@ == e@,
        r.response_object is None,
{
    Response { success: false, message: e, response_object: None }
}

/// An error of a service handler.
pub enum AppError {
    Error(String),
}

impl AppError {
    /// The HTTP status and message the error is answered with.
    pub fn into_status(self) -> (r: (u16, String))
        ensures
            match self {
                AppError::Error(e) => r.0 == 404 && r.1@ == e@,
            },
    {
        match self {
            AppError::Error(e) => (404, e),
        }
    }
}

/// The query of a route request.
pub struct FullPathParams {
    pub from: String,
    pub to: String,
}

/// The query of a nearest-stations request.
pub struct NearestParams {
    pub id: String,
    pub time: u32,
}

/// The query of an order request.
pub struct IdQuery {
    pub id: String,
}

/// The error for a packet id under which no packet is stored.
pub open spec fn missing_packet_message(id: Seq<char>) -> Seq<char> {
    "Ошибка установки видимости для пакета "@ + id + " такой идентификатор отсутсвует в базе данных"@
}

/// The new visibility of the packet `id`, given the visibility of each
/// packet stored under that id: the first one's, flipped; an error when
/// none is stored.
pub fn set_visibility(id: &str, found: &Vec<bool>) -> (r: Result<bool, String>)
    ensures
        found@.len() == 0 ==> (r matches Err(m) && m@ == missing_packet_message(id@)),
        found@.len() > 0 ==> r == Ok::<bool, String>(!found@[0]),
{
    if found.len() == 0 {
        let mut m = String::from_str("Ошибка установки видимости для пакета ");
        m.append(id);
        m.append(" такой идентификатор отсутсвует в базе данных");
        Err(m)
    } else {
        Ok(!found[0])
    }
}

/// The conditions of a packet query, as SQL fragments: delivered after
/// `date1`, before `date2`, sent by `source_id`, updated since `update_date`.
pub open spec fn packet_conditions(
    date1: Option<Seq<char>>,
    date2: Option<Seq<char>>,
    source_id: Option<Seq<char>>,
    update_date: Option<Seq<char>>,
) -> Seq<Seq<char>> {
    let a = match date1 {
        Some(d) => seq!["datetime(delivery_time) > "@ + "datetime('"@ + d + "')"@],
        None => Seq::empty(),
    };
    let b = match date2 {
        Some(d) => seq!["datetime(delivery_time) < "@ + "datetime('"@ + d + "')"@],
        None => Seq::empty(),
    };
    let c = match source_id {
        Some(id) => seq!["sender_info->'sourceGuid' = '\""@ + id + "\"'"@],
        None => Seq::empty(),
    };
    let e = match update_date {
        Some(u) => seq!["update_key' >= '\""@ + u + "\"'"@],
        None => Seq::empty(),
    };
    a + b + c + e
}

pub open spec fn opt_str_view(s: Option<&str>) -> Option<Seq<char>> {
    match s {
        Some(v) => Some(v@),
        None => None,
    }
}

fn push_condition(parts: &mut Vec<String>, a: &str, b: &str, c: &str)
    ensures
        crate::registry::strings_view(final(parts)@) == crate::registry::strings_view(old(parts)@).push(a@ + b@ + c@),
{
    let mut s = String::from_str(a);
    s.append(b);
    s.append(c);
    let ghost before = crate::registry::strings_view(parts@);
    parts.push(s);
    assert(crate::registry::strings_view(parts@) =~= before.push(a@ + b@ + c@));
}

/// The selection of a packet query: its conditions joined with ` AND `, or
/// none when no condition is given.
pub fn packet_selector(
    date1: Option<&str>,
    date2: Option<&str>,
    source_id: Option<&str>,
    update_date: Option<&str>,
) -> (r: Option<String>)
    ensures
        ({
            let conds = packet_conditions(opt_str_view(date1), opt_str_view(date2), opt_str_view(source_id), opt_str_view(update_date));
            match r {
                Some(s) => conds.len() > 0 && s@ == join(conds, " AND "@),
                None => conds.len() == 0,
            }
        }),
{
    let ghost conds = packet_conditions(opt_str_view(date1), opt_str_view(date2), opt_str_view(source_id), opt_str_view(update_date));
    let mut parts: Vec<String> = Vec::new();
    if let Some(d1) = date1 {
        let mut head = String::from_str("datetime(delivery_time) > ");
        head.append("datetime('");
        push_condition(&mut parts, head.as_str(), d1, "')");
    }
    if let Some(d2) = date2 {
        let mut head = String::from_str("datetime(delivery_time) < ");
        head.append("datetime('");
        push_condition(&mut parts, head.as_str(), d2, "')");
    }
    if let Some(id) = source_id {
        push_condition(&mut parts, "sender_info->'sourceGuid' = '\"", id, "\"'");
    }
    if let Some(u) = update_date {
        push_condition(&mut parts, "update_key' >= '\"", u, "\"'");
    }
    assert(crate::registry::strings_view(parts@) =~= conds);
    if parts.len() == 0 {
        return None;
    }
    let mut joined = String::new();
    let mut i: usize = 0;
    while i < parts.len()
        invariant
            i <= parts@.len(),
            conds == crate::registry::strings_view(parts@),
            joined@ == join(conds.take(i as int), " AND "@),
        decreases parts@.len() - i,
    {
        assert(conds.take(i + 1).drop_last() =~= conds.take(i as int));
        if i > 0 {
            joined.append(" AND ");
        } else {
            assert(conds.take(0) =~= Seq::<Seq<char>>::empty());
        }
        joined.append(parts[i].as_str());
        i = i + 1;
    }
    assert(conds.take(conds.len() as int) =~= conds);
    Some(joined)
}

} // verus!
