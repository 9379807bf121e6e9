//! The gateway's decisions: which handler a request goes to, which service
//! and path it is forwarded to, and whether it carries a valid user.
use vstd::prelude::*;
use vstd::string::*;
use crate::jwt::{eddsa_claims, names_user, Claims, GatewayError, JWT};
use crate::registry::{
    Endpoint, EndpointView, ServiceConfig, ServiceConfigView, ServiceRegistry, first_serving,
};
use crate::text::{replace_all, replace_str, split_once, split_once_char, str_eq, strip_prefix_char};

verus! {

/// A response the gateway gives itself: an HTTP status and a text body.
pub struct Reply {
    pub status: u16,
    pub body: String,
}

/// Where a request is forwarded: the service's address, the path and query
/// with the service's prefix removed, and the endpoint that serves it.
pub struct Forward {
    pub authority: String,
    pub path_and_query: String,
    pub endpoint: Endpoint,
}

/// The outcome of resolving a request path, as values.
pub enum RouteOutcome {
    Rejected { status: u16, message: Seq<char> },
    Routed { authority: Seq<char>, path_and_query: Seq<char>, endpoint: EndpointView },
}

pub open spec fn bad_path_message(uri: Seq<char>) -> Seq<char> {
    "Ошибка запроса "@ + uri + ", указан неверный путь к сервису"@
}

pub open spec fn no_service_message(path: Seq<char>) -> Seq<char> {
    "Ошибка запроса "@ + path + ", не уточнен сервис к которому производится запрос"@
}

pub open spec fn unknown_service_message(name: Seq<char>) -> Seq<char> {
    "Сервис "@ + name + " не найден"@
}

pub open spec fn unknown_path_message(name: Seq<char>, path: Seq<char>) -> Seq<char> {
    "Ошибка в сервисе "@ + name + " не найден путь "@ + path
}

/// How the gateway resolves a request with the full `uri`, its `path` and its
/// `path_and_query`: the first path segment names the service, the rest must
/// be served by one of its endpoints, and the forwarded path and query lose
/// every occurrence of `<service>/`.
pub open spec fn service_route(
    reg: Map<Seq<char>, ServiceConfigView>,
    uri: Seq<char>,
    path: Seq<char>,
    path_and_query: Seq<char>,
) -> RouteOutcome {
    if !(path.len() > 0 && path[0] == '/') {
        RouteOutcome::Rejected { status: 400, message: bad_path_message(uri) }
    } else {
        let p = path.skip(1);
        match split_once(p, '/') {
            None => RouteOutcome::Rejected { status: 400, message: no_service_message(p) },
            Some((name, rest)) => if !reg.contains_key(name) {
                RouteOutcome::Rejected { status: 404, message: unknown_service_message(name) }
            } else {
                match first_serving(reg[name].endpoints, rest) {
                    None => RouteOutcome::Rejected { status: 400, message: unknown_path_message(name, rest) },
                    Some(i) => RouteOutcome::Routed {
                        authority: reg[name].address,
                        path_and_query: replace_all(path_and_query, name + seq!['/'], Seq::empty()),
                        endpoint: reg[name].endpoints[i],
                    },
                }
            }
        }
    }
}

pub open spec fn forward_matches(f: Forward, authority: Seq<char>, path_and_query: Seq<char>, endpoint: EndpointView) -> bool {
    f.authority@ == authority && f.path_and_query@ == path_and_query && f.endpoint@ == endpoint
}

pub open spec fn route_result_matches(r: Result<Forward, Reply>, o: RouteOutcome) -> bool {
    match o {
        RouteOutcome::Rejected { status, message } => r matches Err(e) && e.status == status && e.body@ == message,
        RouteOutcome::Routed { authority, path_and_query, endpoint } =>
            r matches Ok(f) && forward_matches(f, authority, path_and_query, endpoint),
    }
}

fn concat3(a: &str, b: &str, c: &str) -> (r: String)
    ensures
        r@ == a@ + b@ + c@,
{
    let mut r = String::from_str(a);
    r.append(b);
    r.append(c);
    r
}

/// Resolves the target service and path of a request.
pub fn check_services_path(
    registry: &ServiceRegistry,
    uri: &str,
    path: &str,
    path_and_query: &str,
) -> (r: Result<Forward, Reply>)
    requires
        registry.wf(),
    ensures
        route_result_matches(r, service_route(registry@, uri@, path@, path_and_query@)),
{
    let p = match strip_prefix_char(path, '/') {
        Some(p) => p,
        None => {
            let m = concat3("Ошибка запроса ", uri, ", указан неверный путь к сервису");
            return Err(Reply { status: 400, body: m });
        },
    };
    let (name, rest) = match split_once_char(p.as_str(), '/') {
        Some(parts) => parts,
        None => {
            let m = concat3("Ошибка запроса ", p.as_str(), ", не уточнен сервис к которому производится запрос");
            return Err(Reply { status: 400, body: m });
        },
    };
    let service = match registry.get_config(name.as_str()) {
        Some(s) => s,
        None => {
            let m = concat3("Сервис ", name.as_str(), " не найден");
            return Err(Reply { status: 404, body: m });
        },
    };
    match service.get_endpoint(rest.as_str()) {
        Some(endpoint) => {
            let mut prefix = name.clone();
            proof { reveal_strlit("/"); }
            prefix.append("/");
            assert(prefix@ =~= name@ + seq!['/']);
            let pq = replace_str(path_and_query, prefix.as_str(), "");
            proof {
                reveal_strlit("");
                assert(""@ =~= Seq::<char>::empty());
            }
            Ok(Forward { authority: service.address.clone(), path_and_query: pq, endpoint: endpoint.clone() })
        },
        None => {
            let mut m = concat3("Ошибка в сервисе ", name.as_str(), " не найден путь ");
            m.append(rest.as_str());
            Err(Reply { status: 400, body: m })
        },
    }
}

/// The handlers of the gateway.
pub enum GatewayRoute {
    /// A CORS preflight, answered with an empty `200`.
    Preflight,
    RegisterService,
    DeregisterService,
    Authenticate,
    TokenStatus,
    RefreshTokens,
    ServicesList,
    /// Anything else is forwarded to a registered service.
    Forward,
}

/// Which handler serves a request with the given method and path.
pub open spec fn route_of(method: Seq<char>, path: Seq<char>) -> GatewayRoute {
    if method == "OPTIONS"@ {
        GatewayRoute::Preflight
    } else if path == "/register_service"@ {
        GatewayRoute::RegisterService
    } else if path == "/deregister_service"@ {
        GatewayRoute::DeregisterService
    } else if path == "/authentification"@ {
        GatewayRoute::Authenticate
    } else if path == "/authentification/status"@ {
        GatewayRoute::TokenStatus
    } else if path == "/authentification/refresh"@ {
        GatewayRoute::RefreshTokens
    } else if path == "/services_list"@ {
        GatewayRoute::ServicesList
    } else {
        GatewayRoute::Forward
    }
}

/// Chooses the handler of a request.
pub fn router(method: &str, path: &str) -> (r: GatewayRoute)
    ensures
        r == route_of(method@, path@),
{
    if str_eq(method, "OPTIONS") {
        GatewayRoute::Preflight
    } else if str_eq(path, "/register_service") {
        GatewayRoute::RegisterService
    } else if str_eq(path, "/deregister_service") {
        GatewayRoute::DeregisterService
    } else if str_eq(path, "/authentification") {
        GatewayRoute::Authenticate
    } else if str_eq(path, "/authentification/status") {
        GatewayRoute::TokenStatus
    } else if str_eq(path, "/authentification/refresh") {
        GatewayRoute::RefreshTokens
    } else if str_eq(path, "/services_list") {
        GatewayRoute::ServicesList
    } else {
        GatewayRoute::Forward
    }
}

/// The token of an `Authorization` header: the header with every
/// `Bearer ` removed.
pub open spec fn bearer_token(header: Seq<char>) -> Seq<char> {
    replace_all(header, "Bearer "@, Seq::empty())
}

fn strip_bearer(header: &str) -> (r: String)
    ensures
        r@ == bearer_token(header@),
{
    proof {
        reveal_strlit("Bearer ");
        reveal_strlit("");
        assert(""@ =~= Seq::<char>::empty());
    }
    replace_str(header, "Bearer ", "")
}

/// Whether the `Authorization` header carries, once `Bearer ` is removed,
/// an access token of `user` that verifies under `key`.
pub open spec fn carries_access(key: Seq<u8>, header: Seq<char>, user: Seq<char>) -> bool {
    names_user(bearer_token(header), key, "access"@, user)
}

/// The claims of the access token in the `Authorization` header, if it is
/// present and the token is valid.
pub fn get_claims(jwt: &JWT, authorization: Option<&str>) -> (r: Option<Claims>)
    ensures
        authorization is None ==> r is None,
        r matches Some(c) ==> c.sub@ == "access"@ && (authorization matches Some(h)
            && eddsa_claims(bearer_token(h@), jwt.verifying_key()) == Some((c.sub@, c.exp as int, c.iat as int, c.id@))),
{
    match authorization {
        Some(value) => {
            let token = strip_bearer(value);
            match jwt.validate_access(token.as_str()) {
                Ok(c) => Some(c),
                Err(_) => None,
            }
        },
        None => None,
    }
}

/// Whether the `Authorization` header carries a valid access token.
pub fn is_autentificated(jwt: &JWT, authorization: Option<&str>) -> (r: bool)
    ensures
        authorization is None ==> !r,
        r ==> (authorization matches Some(h) && exists|user: Seq<char>| #[trigger] carries_access(jwt.verifying_key(), h@, user)),
{
    match get_claims(jwt, authorization) {
        Some(c) => {
            assert(carries_access(jwt.verifying_key(), authorization.unwrap()@, c.id@));
            true
        },
        None => false,
    }
}

pub open spec fn unauthorized_body() -> Seq<char> {
    "Unauthorized"@
}

/// The `401` the gateway answers unauthenticated requests with.
pub fn unauthorized_response() -> (r: Reply)
    ensures
        r.status == 401,
        r.body@ == unauthorized_body(),
{
    Reply { status: 401, body: String::from_str("Unauthorized") }
}

/// Answers a token status request.
pub fn verify_token(jwt: &JWT, authorization: Option<&str>) -> (r: Reply)
    ensures
        r.status == 200 ==> r.body@ == "Вы аутентифицированы"@,
        r.status != 200 ==> r.status == 401 && r.body@ == unauthorized_body(),
        authorization is None ==> r.status == 401,
        r.status == 200 ==> (authorization matches Some(h) && exists|user: Seq<char>| #[trigger] carries_access(jwt.verifying_key(), h@, user)),
{
    if is_autentificated(jwt, authorization) {
        Reply { status: 200, body: String::from_str("Вы аутентифицированы") }
    } else {
        unauthorized_response()
    }
}

/// What the gateway does with a request for a registered service.
pub enum RequestPlan {
    /// Answer directly.
    Respond(Reply),
    /// Forward, adding the `User-Id` header when a user is known.
    Forward(Forward, Option<String>),
}

/// What to do with a resolved request, given the claims of its access
/// token when it carries a valid one: a rejection is answered as it is; an
/// endpoint open to all is forwarded without a user; one that demands a user
/// is forwarded with the user the claims name, or refused with `401` when
/// there are no claims.
pub fn plan_request(target: Result<Forward, Reply>, claims: Option<Claims>) -> (r: RequestPlan)
    ensures
        match target {
            Err(rep) => r == RequestPlan::Respond(rep),
            Ok(f) => if !f.endpoint@.authorization {
                r == RequestPlan::Forward(f, None)
            } else {
                match claims {
                    Some(c) => r == RequestPlan::Forward(f, Some(c.id)),
                    None => r matches RequestPlan::Respond(rep) && rep.status == 401 && rep.body@ == unauthorized_body(),
                }
            },
        },
{
    match target {
        Err(rep) => RequestPlan::Respond(rep),
        Ok(f) => if f.endpoint.need_authorization() {
            match claims {
                Some(c) => RequestPlan::Forward(f, Some(c.id)),
                None => RequestPlan::Respond(unauthorized_response()),
            }
        } else {
            RequestPlan::Forward(f, None)
        },
    }
}

/// Resolves a request and checks its user where the endpoint demands one.
pub fn handle_request(
    registry: &ServiceRegistry,
    jwt: &JWT,
    uri: &str,
    path: &str,
    path_and_query: &str,
    authorization: Option<&str>,
) -> (r: RequestPlan)
    requires
        registry.wf(),
    ensures
        match service_route(registry@, uri@, path@, path_and_query@) {
            RouteOutcome::Rejected { status, message } =>
                r matches RequestPlan::Respond(rep) && rep.status == status && rep.body@ == message,
            RouteOutcome::Routed { authority, path_and_query, endpoint } => if !endpoint.authorization {
                r matches RequestPlan::Forward(f, None) && forward_matches(f, authority, path_and_query, endpoint)
            } else if authorization is None {
                r matches RequestPlan::Respond(rep) && rep.status == 401 && rep.body@ == unauthorized_body()
            } else {
                ||| (r matches RequestPlan::Respond(rep) && rep.status == 401 && rep.body@ == unauthorized_body())
                ||| (r matches RequestPlan::Forward(f, Some(u)) && forward_matches(f, authority, path_and_query, endpoint)
                    && carries_access(jwt.verifying_key(), authorization.unwrap()@, u@))
            },
        },
{
    let target = check_services_path(registry, uri, path, path_and_query);
    let claims = match &target {
        Ok(f) => if f.endpoint.need_authorization() { get_claims(jwt, authorization) } else { None },
        Err(_) => None,
    };
    plan_request(target, claims)
}

/// The socket address a forwarded request is sent to: the authority with
/// `localhost` spelled as `127.0.0.1`.
pub fn forward_host(authority: &str) -> (r: String)
    ensures
        r@ == replace_all(authority@, "localhost"@, "127.0.0.1"@),
{
    proof { reveal_strlit("localhost"); }
    replace_str(authority, "localhost", "127.0.0.1")
}

pub open spec fn registered_message(name: Seq<char>) -> Seq<char> {
    "Сервис "@ + name + " успешно зарегистрирован"@
}

pub open spec fn deregistered_message(name: Seq<char>) -> Seq<char> {
    "Сервис "@ + name + " успешно удален"@
}

/// Registers a service under its own name and answers the request.
pub fn register_service(registry: &mut ServiceRegistry, config: ServiceConfig) -> (r: Reply)
    requires
        old(registry).wf(),
    ensures
        final(registry).wf(),
        final(registry)@ == old(registry)@.insert(config@.name, config@),
        r.status == 200,
        r.body@ == registered_message(config@.name),
{
    let name = config.name.clone();
    let m = concat3("Сервис ", name.as_str(), " успешно зарегистрирован");
    registry.register(name, config);
    Reply { status: 200, body: m }
}

/// Removes a service and answers the request.
pub fn deregister_service(registry: &mut ServiceRegistry, name: &str) -> (r: Reply)
    requires
        old(registry).wf(),
    ensures
        final(registry).wf(),
        final(registry)@ == old(registry)@.remove(name@),
        r.status == 200,
        r.body@ == deregistered_message(name@),
{
    registry.deregister(name);
    Reply { status: 200, body: concat3("Сервис ", name, " успешно удален") }
}

/// The registered configurations, for the services list.
pub fn get_all_services_configs(registry: &ServiceRegistry) -> (r: Vec<ServiceConfig>)
    requires
        registry.wf(),
    ensures
        r@.len() == registry@.dom().len(),
        forall|i: int| 0 <= i < r@.len() ==> #[trigger] r@[i]@ == registry@[registry.names()[i]],
        registry.names().no_duplicates(),
        registry.names().to_set() == registry@.dom(),
{
    registry.configs()
}

/// A login and password.
pub struct Crendentials {
    pub login: String,
    pub password: String,
}

/// The answer to a successful authentication.
pub struct AuthorizationResponse {
    pub user_id: String,
    pub role: String,
    pub refresh_key: String,
    pub access_key: String,
}

/// A refresh token to exchange, or a freshly issued pair.
pub struct UpdateTokens {
    pub access: String,
    pub refresh: String,
}

/// Authenticates the user named by the login (the password is not checked)
/// and issues a pair of tokens for it.
pub fn authentificate(jwt: &mut JWT, credentials: &Crendentials) -> (r: Result<AuthorizationResponse, GatewayError>)
    requires
        old(jwt).wf(),
    ensures
        final(jwt).wf(),
        r matches Ok(a) && a.user_id@ == credentials.login@ && a.role@ == "Оператор"@
            && final(jwt).tokens().pairs == old(jwt).tokens().pairs.insert(a.refresh_key@, a.access_key@)
            && final(jwt).tokens().expired == old(jwt).tokens().expired
            && (exists|iat: int| #[trigger] crate::jwt::issued_token("refresh"@, crate::jwt::REFRESH_LIFETIME as int, iat, credentials.login@, old(jwt).signing_key()) == Some(a.refresh_key@))
            && (exists|iat: int| #[trigger] crate::jwt::issued_token("access"@, crate::jwt::ACCESS_LIFETIME as int, iat, credentials.login@, old(jwt).signing_key()) == Some(a.access_key@))
            && names_user(a.refresh_key@, old(jwt).verifying_key(), "refresh"@, credentials.login@)
            && names_user(a.access_key@, old(jwt).verifying_key(), "access"@, credentials.login@),
{
    let user_id = credentials.login.clone();
    match jwt.get_pair(user_id.as_str()) {
        Ok((refresh, access)) => Ok(AuthorizationResponse {
            user_id,
            role: String::from_str("Оператор"),
            refresh_key: refresh,
            access_key: access,
        }),
        Err(e) => Err(e),
    }
}

/// Exchanges the refresh token of the request for a new pair.
pub fn update_tokens(jwt: &mut JWT, tokens: &UpdateTokens) -> (r: Result<UpdateTokens, GatewayError>)
    requires
        old(jwt).wf(),
    ensures
        final(jwt).wf(),
        r matches Ok(t) ==> old(jwt).tokens().pairs.contains_key(tokens.refresh@)
            && crate::tokens::rotation(old(jwt).tokens(), tokens.refresh@, t.refresh@, t.access@, final(jwt).tokens())
            && exists|user: Seq<char>| #[trigger] names_user(tokens.refresh@, old(jwt).verifying_key(), "refresh"@, user)
                && final(jwt).tokens() == crate::tokens::rotated(old(jwt).tokens(), tokens.refresh@, user, t.refresh@, t.access@)
                && (exists|iat: int| #[trigger] crate::jwt::issued_token("refresh"@, crate::jwt::REFRESH_LIFETIME as int, iat, user, old(jwt).signing_key()) == Some(t.refresh@))
                && (exists|iat: int| #[trigger] crate::jwt::issued_token("access"@, crate::jwt::ACCESS_LIFETIME as int, iat, user, old(jwt).signing_key()) == Some(t.access@))
                && names_user(t.refresh@, old(jwt).verifying_key(), "refresh"@, user)
                && names_user(t.access@, old(jwt).verifying_key(), "access"@, user),
        r matches Err(GatewayError::JWTRefreshError(m)) ==> !old(jwt).tokens().pairs.contains_key(tokens.refresh@)
            && exists|user: Seq<char>| #[trigger] names_user(tokens.refresh@, old(jwt).verifying_key(), "refresh"@, user)
                && m@ == crate::jwt::refresh_reuse_message(user)
                && final(jwt).tokens() == crate::tokens::wiped(old(jwt).tokens(), user),
        r matches Err(GatewayError::JWTError(_)) ==> crate::tokens::rejected(old(jwt).tokens(), tokens.refresh@, final(jwt).tokens()),
        !(r matches Err(GatewayError::SendError(_))),
        old(jwt).tokens().pairs.contains_key(tokens.refresh@) ==> !(r matches Err(GatewayError::JWTRefreshError(_))),
        !old(jwt).tokens().pairs.contains_key(tokens.refresh@) ==> !(r is Ok),
{
    match jwt.update_keys(tokens.refresh.as_str()) {
        Ok(p) => {
            let ghost pv = p;
            let t = UpdateTokens { access: p.1, refresh: p.0 };
            assert(t.refresh@ == pv.0@ && t.access@ == pv.1@);
            Ok(t)
        },
        Err(e) => Err(e),
    }
}

} // verus!
