use metro_services::gateway::{
    check_services_path, deregister_service, forward_host, handle_request, plan_request, register_service, router,
    unauthorized_response, verify_token, Forward, GatewayRoute, Reply, RequestPlan,
};
use metro_services::jwt::{Claims, JWT};
use metro_services::rate_limiter::{RateLimiter, MAX_VISITS};
use metro_services::registry::{Endpoint, ServiceConfig, ServiceRegistry};

fn db_service() -> ServiceConfig {
    ServiceConfig {
        name: "db_service".to_owned(),
        address: "localhost:5412".to_owned(),
        endpoints: vec![Endpoint {
            path: "/api/v1/employee/list".to_owned(),
            authorization: false,
            params: None,
            body: None,
            method: Some("POST".to_owned()),
            description: None,
        }],
    }
}

fn registry_with(configs: Vec<ServiceConfig>) -> ServiceRegistry {
    ServiceRegistry::from_configs(configs)
}

#[test]
fn test_fint_path() {
    let service = db_service();
    let end = service.get_endpoint("api/v1/employee/list").unwrap();
    assert_eq!(end.path, "/api/v1/employee/list");
    let reg = registry_with(vec![service]);
    let uri = "http://localhost:8080/db_service/api/v1/employee/list?limit=20&off=0";
    let fwd = check_services_path(
        &reg,
        uri,
        "/db_service/api/v1/employee/list",
        "/db_service/api/v1/employee/list?limit=20&off=0",
    )
    .ok()
    .unwrap();
    assert_eq!(fwd.authority, "localhost:5412");
    assert_eq!(fwd.path_and_query, "/api/v1/employee/list?limit=20&off=0");
    assert_eq!(fwd.endpoint.path, "/api/v1/employee/list");
    assert_eq!(fwd.endpoint.method, Some("POST".to_owned()));
    assert_eq!(format!("http://{}{}", forward_host(&fwd.authority), fwd.path_and_query),
        "http://127.0.0.1:5412/api/v1/employee/list?limit=20&off=0");
}

#[test]
fn endpoint_match_ignores_slashes_and_query() {
    let service = ServiceConfig::new("subway", "localhost:8888")
        .add_endpoint("nearest", false)
        .add_endpoint("/path/", true);
    assert_eq!(service.get_endpoint("/nearest?id=1").unwrap().path, "nearest");
    assert_eq!(service.get_endpoint("path").unwrap().path, "/path/");
    assert!(service.get_endpoint("stations").is_none());
    assert_eq!(service.get_name(), "subway");
    assert_eq!(service.get_address(), "localhost:8888");
}

#[test]
fn routing_errors() {
    let reg = registry_with(vec![db_service()]);
    let e = check_services_path(&reg, "u", "db_service/x", "db_service/x").err().unwrap();
    assert_eq!(e.status, 400);
    assert_eq!(e.body, "Ошибка запроса u, указан неверный путь к сервису");
    let e = check_services_path(&reg, "u", "/db_service", "/db_service").err().unwrap();
    assert_eq!(e.status, 400);
    assert_eq!(e.body, "Ошибка запроса db_service, не уточнен сервис к которому производится запрос");
    let e = check_services_path(&reg, "u", "/other/x", "/other/x").err().unwrap();
    assert_eq!(e.status, 404);
    assert_eq!(e.body, "Сервис other не найден");
    let e = check_services_path(&reg, "u", "/db_service/api/v2", "/db_service/api/v2").err().unwrap();
    assert_eq!(e.status, 400);
    assert_eq!(e.body, "Ошибка в сервисе db_service не найден путь api/v2");
}

#[test]
fn router_picks_handlers() {
    assert!(matches!(router("OPTIONS", "/register_service"), GatewayRoute::Preflight));
    assert!(matches!(router("POST", "/register_service"), GatewayRoute::RegisterService));
    assert!(matches!(router("POST", "/deregister_service"), GatewayRoute::DeregisterService));
    assert!(matches!(router("POST", "/authentification"), GatewayRoute::Authenticate));
    assert!(matches!(router("GET", "/authentification/status"), GatewayRoute::TokenStatus));
    assert!(matches!(router("POST", "/authentification/refresh"), GatewayRoute::RefreshTokens));
    assert!(matches!(router("GET", "/services_list"), GatewayRoute::ServicesList));
    assert!(matches!(router("GET", "/subway/path"), GatewayRoute::Forward));
}

#[test]
fn register_then_route_then_deregister() {
    let mut reg = ServiceRegistry::new();
    let cfg = ServiceConfig::new("subway", "localhost:8888").add_endpoint("stations", false);
    let r = register_service(&mut reg, cfg);
    assert_eq!(r.status, 200);
    assert_eq!(r.body, "Сервис subway успешно зарегистрирован");
    assert_eq!(reg.get_address("subway"), Some("localhost:8888".to_owned()));
    let fwd = check_services_path(&reg, "u", "/subway/stations", "/subway/stations?x=1").ok().unwrap();
    assert_eq!(fwd.authority, "localhost:8888");
    assert_eq!(fwd.path_and_query, "/stations?x=1");
    let configs = reg.configs();
    assert_eq!(configs.len(), 1);
    assert_eq!(configs[0].name, "subway");
    let r = deregister_service(&mut reg, "subway");
    assert_eq!(r.status, 200);
    assert_eq!(r.body, "Сервис subway успешно удален");
    assert!(reg.get_config("subway").is_none());
    let e = check_services_path(&reg, "u", "/subway/stations", "/subway/stations").err().unwrap();
    assert_eq!(e.status, 404);
}

#[test]
fn later_registration_replaces_earlier() {
    let mut reg = ServiceRegistry::new();
    reg.register("a".to_owned(), ServiceConfig::new("a", "h1"));
    reg.register("a".to_owned(), ServiceConfig::new("a", "h2").add_endpoint("p", false));
    assert_eq!(reg.get_address("a"), Some("h2".to_owned()));
    assert_eq!(reg.get_endpoints("a").unwrap().len(), 1);
    assert_eq!(reg.configs().len(), 1);
    assert!(reg.get_address("b").is_none());
}

#[test]
fn rate_limiter_allows_five_requests() {
    let mut limiter = RateLimiter::new();
    for _ in 0..MAX_VISITS {
        assert!(limiter.allow("10.0.0.1"));
    }
    assert!(!limiter.allow("10.0.0.1"));
    assert!(!limiter.allow("10.0.0.1"));
    assert!(limiter.allow("10.0.0.2"));
}

#[test]
fn forward_host_rewrites_localhost() {
    assert_eq!(forward_host("localhost:8888"), "127.0.0.1:8888");
    assert_eq!(forward_host("10.1.1.1:80"), "10.1.1.1:80");
}

#[test]
fn requests_needing_a_user() {
    let cfg = ServiceConfig::new("orders", "localhost:5000")
        .add_endpoint("open", false)
        .add_endpoint("closed", true);
    let reg = registry_with(vec![cfg]);
    let mut jwt = JWT::new().unwrap();
    match handle_request(&reg, &jwt, "u", "/orders/open", "/orders/open", None) {
        RequestPlan::Forward(f, user) => {
            assert_eq!(f.path_and_query, "/open");
            assert!(user.is_none());
        },
        RequestPlan::Respond(_) => panic!("an open endpoint is forwarded"),
    }
    match handle_request(&reg, &jwt, "u", "/orders/closed", "/orders/closed", None) {
        RequestPlan::Respond(rep) => {
            assert_eq!(rep.status, 401);
            assert_eq!(rep.body, "Unauthorized");
        },
        RequestPlan::Forward(..) => panic!("no user, no forwarding"),
    }
    match handle_request(&reg, &jwt, "u", "/orders/closed", "/orders/closed", Some("Bearer garbage")) {
        RequestPlan::Respond(rep) => assert_eq!(rep.status, 401),
        RequestPlan::Forward(..) => panic!("an invalid token is refused"),
    }
    let (_, access) = jwt.get_pair("user-7").ok().unwrap();
    let header = format!("Bearer {}", access);
    match handle_request(&reg, &jwt, "u", "/orders/closed", "/orders/closed", Some(header.as_str())) {
        RequestPlan::Forward(_, user) => assert_eq!(user, Some("user-7".to_owned())),
        RequestPlan::Respond(_) => panic!("a valid access token is accepted"),
    }
    match handle_request(&reg, &jwt, "u", "/missing/x", "/missing/x", None) {
        RequestPlan::Respond(rep) => assert_eq!(rep.status, 404),
        RequestPlan::Forward(..) => panic!("unknown service"),
    }
    let ok = verify_token(&jwt, Some(header.as_str()));
    assert_eq!(ok.status, 200);
    assert_eq!(ok.body, "Вы аутентифицированы");
    let no = verify_token(&jwt, None);
    assert_eq!(no.status, 401);
    let u = unauthorized_response();
    assert_eq!(u.status, 401);
    assert_eq!(u.body, "Unauthorized");
}

#[test]
fn plans_follow_the_claims() {
    let fwd = |auth: bool| Forward {
        authority: "localhost:1".to_owned(),
        path_and_query: "/x".to_owned(),
        endpoint: Endpoint { path: "x".to_owned(), authorization: auth, method: None, params: None, body: None, description: None },
    };
    let claims = Claims { sub: "access".to_owned(), exp: 0, iat: 0, id: "u9".to_owned() };
    match plan_request(Ok(fwd(true)), Some(claims)) {
        RequestPlan::Forward(f, Some(u)) => {
            assert_eq!(u, "u9");
            assert_eq!(f.path_and_query, "/x");
        },
        _ => panic!("claims give the user"),
    }
    match plan_request(Ok(fwd(true)), None) {
        RequestPlan::Respond(r) => assert_eq!(r.status, 401),
        _ => panic!("no claims, no user"),
    }
    let open_claims = Claims { sub: "access".to_owned(), exp: 0, iat: 0, id: "u9".to_owned() };
    assert!(matches!(plan_request(Ok(fwd(false)), Some(open_claims)), RequestPlan::Forward(_, None)));
    match plan_request(Err(Reply { status: 404, body: "nope".to_owned() }), None) {
        RequestPlan::Respond(r) => assert_eq!((r.status, r.body.as_str()), (404, "nope")),
        _ => panic!("a rejection is answered as it is"),
    }
}

#[test]
fn every_service_segment_is_dropped() {
    let cfg = ServiceConfig::new("a", "h:1").add_endpoint("x/a/y", false);
    let reg = registry_with(vec![cfg]);
    let fwd = check_services_path(&reg, "u", "/a/x/a/y", "/a/x/a/y?q=a/").ok().unwrap();
    assert_eq!(fwd.path_and_query, "/x/y?q=");
}
