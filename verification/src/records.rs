//! Stored records: employees, shifts, stored requests and their
//! confirmations, map extraction stations, and the orders table.
use vstd::prelude::*;
use vstd::string::*;
use crate::keyed::StringMap;
use crate::orders::Date;

verus! {

/// An employee of the employee service.
pub struct Employee {
    pub id: String,
    pub fio: String,
}

/// An employee on shift, as the employee service keeps it.
pub struct Workers {
    pub id: String,
    pub employee_id: String,
    /// The day the employee is on shift.
    pub date: Date,
    /// The station the employee is at.
    pub station_id: String,
    pub is_busy: bool,
}

/// Where in the station the passenger is met.
#[derive(Clone, Copy, PartialEq, Eq, Structural, Debug)]
pub enum Palce {
    OnEnter,
    OnTurnstile,
    OnLobby,
    OnCenter,
}

/// A stored request for assistance, with whether it is confirmed.
pub struct Order {
    pub id: String,
    pub fio: String,
    pub path_from: String,
    pub path_to: String,
    pub request_date: Date,
    pub average_path_time: u32,
    pub note: Option<String>,
    pub place: Palce,
    pub is_confirmed: bool,
}

/// The employees confirmed for a stored request, and their busy time.
pub struct ConfirmedOrder {
    pub id: String,
    pub order_id: String,
    pub start_work: Date,
    pub end_work: Date,
    pub employess: Vec<String>,
}

/// A station of the map extraction tool: the node and station ids of the
/// stops, and the node of each node id.
pub struct Station {
    pub id: String,
    pub name: String,
    pub stations_dict: StringMap<String>,
    pub node_indexes: StringMap<u32>,
}


/// An employee's assignment to an order, as the order database stores it.
pub struct OrdersTable {
    pub id: String,
    pub order_id: String,
    pub employee_id: String,
    pub start_work: Date,
    pub end_work: Date,
}

impl OrdersTable {
    pub fn table_name() -> (r: &'static str)
        ensures
            r@ == "orders"@,
    {
        "orders"
    }

    /// The statement creating the table.
    pub fn create_table() -> (r: String)
        ensures
            r@ == "CREATE TABLE IF NOT EXISTS "@ + "orders"@ + " (
            id TEXT PRIMARY KEY NOT NULL,
            order_id TEXT NOT NULL,
            employee_id TEXT NOT NULL, 
            start_work TEXT NOT NULL, 
            end_work TEXT NOT NULL
            );"@,
    {
        let mut r = String::from_str("CREATE TABLE IF NOT EXISTS ");
        r.append(Self::table_name());
        r.append(" (
            id TEXT PRIMARY KEY NOT NULL,
            order_id TEXT NOT NULL,
            employee_id TEXT NOT NULL, 
            start_work TEXT NOT NULL, 
            end_work TEXT NOT NULL
            );");
        r
    }

    /// The statement selecting every column.
    pub fn full_select() -> (r: String)
        ensures
            r@ == "SELECT 
        id,
        order_id,
        employee_id, 
        start_work, 
        end_work
        FROM "@ + "orders"@,
    {
        let mut r = String::from_str("SELECT 
        id,
        order_id,
        employee_id, 
        start_work, 
        end_work
        FROM ");
        r.append(Self::table_name());
        r
    }

    /// The statement updating a row by its id (`$1`), with the order
    /// (`$2`), the employee (`$3`) and the start and end of the work (`$4`,
    /// `$5`).
    pub fn update_statement() -> (r: String)
        ensures
            r@ == "UPDATE "@ + "orders"@ + " SET 
        order_id = $2
        employee_id = $3
        start_work = $4,
        end_work = $5,
        WHERE id = $1"@,
    {
        let mut r = String::from_str("UPDATE ");
        r.append(Self::table_name());
        r.append(" SET 
        order_id = $2
        employee_id = $3
        start_work = $4,
        end_work = $5,
        WHERE id = $1");
        r
    }

    fn insert_statement(verb: &str) -> (r: String)
        ensures
            r@ == verb@ + "orders"@ + " (
         id,
        order_id,
        employee_id, 
        start_work, 
        end_work) 
        VALUES ($1, $2, $3, $4, $5)"@,
    {
        let mut r = String::from_str(verb);
        r.append(Self::table_name());
        r.append(" (
         id,
        order_id,
        employee_id, 
        start_work, 
        end_work) 
        VALUES ($1, $2, $3, $4, $5)");
        r
    }

    /// The statement inserting a row, replacing the row of the same id.
    pub fn insert_or_replace_statement() -> (r: String)
        ensures
            r@ == "INSERT OR REPLACE INTO "@ + "orders"@ + " (
         id,
        order_id,
        employee_id, 
        start_work, 
        end_work) 
        VALUES ($1, $2, $3, $4, $5)"@,
    {
        Self::insert_statement("INSERT OR REPLACE INTO ")
    }

    /// The statement inserting a row unless a row of the same id exists.
    pub fn insert_or_ignore_statement() -> (r: String)
        ensures
            r@ == "INSERT OR IGNORE INTO "@ + "orders"@ + " (
         id,
        order_id,
        employee_id, 
        start_work, 
        end_work) 
        VALUES ($1, $2, $3, $4, $5)"@,
    {
        Self::insert_statement("INSERT OR IGNORE INTO ")
    }
}

} // verus!
