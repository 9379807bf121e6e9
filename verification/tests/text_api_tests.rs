use metro_services::api::{from_err, packet_selector, AppError, Response};
use metro_services::keyed::StringMap;
use metro_services::records::OrdersTable;
use metro_services::registry::ServiceConfig;
use metro_services::text::{parse_i64, replace_str, split_once_char, str_eq, strip_prefix_char, to_base64, to_decimal};

#[test]
fn parsing_integers() {
    assert_eq!(parse_i64("42"), Some(42));
    assert_eq!(parse_i64("-7"), Some(-7));
    assert_eq!(parse_i64("+8"), Some(8));
    assert_eq!(parse_i64("007"), Some(7));
    assert_eq!(parse_i64("9223372036854775807"), Some(i64::MAX));
    assert_eq!(parse_i64("-9223372036854775808"), Some(i64::MIN));
    assert_eq!(parse_i64("9223372036854775808"), None);
    assert_eq!(parse_i64("-9223372036854775809"), None);
    assert_eq!(parse_i64(""), None);
    assert_eq!(parse_i64("-"), None);
    assert_eq!(parse_i64("1a"), None);
    assert_eq!(parse_i64(" 1"), None);
}

#[test]
fn decimal_text() {
    assert_eq!(to_decimal(0), "0");
    assert_eq!(to_decimal(120), "120");
    assert_eq!(to_decimal(u64::MAX), "18446744073709551615");
}

#[test]
fn string_helpers() {
    assert_eq!(replace_str("a/b/c", "/", ""), "abc");
    assert_eq!(replace_str("aaa", "aa", "b"), "ba");
    assert_eq!(replace_str("Bearer tok", "Bearer ", ""), "tok");
    assert_eq!(split_once_char("a/b/c", '/'), Some(("a".to_owned(), "b/c".to_owned())));
    assert_eq!(split_once_char("abc", '/'), None);
    assert_eq!(strip_prefix_char("/x", '/'), Some("x".to_owned()));
    assert_eq!(strip_prefix_char("x", '/'), None);
    assert!(str_eq("станция", "станция"));
    assert!(!str_eq("a", "ab"));
}

#[test]
fn string_map() {
    let mut m: StringMap<u32> = StringMap::new();
    m.insert("a".to_owned(), 1);
    m.insert("b".to_owned(), 2);
    m.insert("a".to_owned(), 3);
    assert_eq!(m.len(), 2);
    assert_eq!(m.get("a"), Some(&3));
    m.remove("a");
    assert_eq!(m.get("a"), None);
    assert_eq!(m.len(), 1);
    assert_eq!(m.key_at(0), "b");
    assert_eq!(*m.value_at(0), 2);
}

#[test]
fn responses() {
    let ok = Response::new(5u32);
    assert!(ok.success);
    assert_eq!(ok.message, "");
    assert_eq!(ok.response_object, Some(5));
    let err: Response<u32> = Response::from_err("bad".to_owned());
    assert!(!err.success);
    assert_eq!(err.message, "bad");
    assert!(err.response_object.is_none());
    let e = from_err("worse".to_owned());
    assert_eq!(e.message, "worse");
    assert_eq!(AppError::Error("missing".to_owned()).into_status(), (404, "missing".to_owned()));
}

#[test]
fn packet_queries() {
    assert_eq!(packet_selector(None, None, None, None), None);
    assert_eq!(
        packet_selector(Some("2024-06-01"), None, Some("abc"), None),
        Some("datetime(delivery_time) > datetime('2024-06-01') AND sender_info->'sourceGuid' = '\"abc\"'".to_owned())
    );
    assert_eq!(
        packet_selector(None, Some("2024-06-02"), None, Some("k")),
        Some("datetime(delivery_time) < datetime('2024-06-02') AND update_key' >= '\"k\"'".to_owned())
    );
}

#[test]
fn orders_table_statements() {
    assert_eq!(OrdersTable::table_name(), "orders");
    assert!(OrdersTable::create_table().starts_with("CREATE TABLE IF NOT EXISTS orders ("));
    assert!(OrdersTable::full_select().ends_with("FROM orders"));
    assert!(OrdersTable::update_statement().starts_with("UPDATE orders SET"));
    assert!(OrdersTable::update_statement().ends_with("WHERE id = $1"));
    assert!(OrdersTable::insert_or_replace_statement().starts_with("INSERT OR REPLACE INTO orders ("));
    assert!(OrdersTable::insert_or_ignore_statement().starts_with("INSERT OR IGNORE INTO orders ("));
    assert!(OrdersTable::insert_or_ignore_statement().ends_with("VALUES ($1, $2, $3, $4, $5)"));
}

#[test]
fn test_json() {
    let mut body = serde_json::Map::new();
    body.insert("name".to_owned(), serde_json::Value::String("test_name".to_owned()));
    body.insert("value".to_owned(), serde_json::Value::String("test_value".to_owned()));
    let body = serde_json::Value::Object(body).to_string();
    let reg = ServiceConfig::new("subway", "localhost:8888")
        .add_endpoint_params("nearest", false, &["id", "time"], "Получение ближайших станций по времени")
        .add_endpoint("stations", false)
        .add_endpoint_body("test", false, &body, "тестовый путь с jsonom")
        .add_endpoint("path", false);
    assert_eq!(reg.name, "subway");
    assert_eq!(reg.endpoints.len(), 4);
    assert_eq!(reg.endpoints[0].params, Some(vec!["id".to_owned(), "time".to_owned()]));
    assert_eq!(reg.endpoints[0].description, Some("Получение ближайших станций по времени".to_owned()));
    assert_eq!(reg.endpoints[2].method, Some("POST".to_owned()));
    assert_eq!(reg.endpoints[2].body, Some("{\"name\":\"test_name\",\"value\":\"test_value\"}".to_owned()));
    assert!(reg.endpoints[3].method.is_none());
}

#[test]
fn base64_text() {
    assert_eq!(to_base64(b""), "");
    assert_eq!(to_base64(b"f"), "Zg==");
    assert_eq!(to_base64(b"fo"), "Zm8=");
    assert_eq!(to_base64(b"foo"), "Zm9v");
    assert_eq!(to_base64(b"foobar"), "Zm9vYmFy");
    assert_eq!(to_base64(&[0xfb, 0xff, 0xbf]), "+/+/");
}

#[test]
fn packet_visibility() {
    assert_eq!(metro_services::api::set_visibility("p1", &vec![true, false]), Ok(false));
    assert_eq!(metro_services::api::set_visibility("p1", &vec![false]), Ok(true));
    assert_eq!(
        metro_services::api::set_visibility("p9", &vec![]),
        Err("Ошибка установки видимости для пакета p9 такой идентификатор отсутсвует в базе данных".to_owned())
    );
}
