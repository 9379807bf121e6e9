//! The gateway's registry of services and the endpoints each one exposes.
use vstd::prelude::*;
use vstd::string::*;
use crate::keyed::StringMap;
use crate::text::{replace_all, replace_str, split_once, split_once_char};

verus! {

/// What an endpoint is, as values.
pub struct EndpointView {
    pub path: Seq<char>,
    pub authorization: bool,
    pub method: Option<Seq<char>>,
    pub params: Option<Seq<Seq<char>>>,
    pub body: Option<Seq<char>>,
    pub description: Option<Seq<char>>,
}

/// One path of a service, whether it needs an authorized user, and how it
/// is called.
pub struct Endpoint {
    pub path: String,
    pub authorization: bool,
    pub method: Option<String>,
    pub params: Option<Vec<String>>,
    pub body: Option<String>,
    pub description: Option<String>,
}

pub open spec fn opt_string_view(s: Option<String>) -> Option<Seq<char>> {
    match s {
        Some(v) => Some(v@),
        None => None,
    }
}

pub open spec fn strings_view(v: Seq<String>) -> Seq<Seq<char>> {
    v.map_values(|s: String| s@)
}

impl View for Endpoint {
    type V = EndpointView;

    open spec fn view(&self) -> EndpointView {
        EndpointView {
            path: self.path@,
            authorization: self.authorization,
            method: opt_string_view(self.method),
            params: match self.params {
                Some(v) => Some(strings_view(v@)),
                None => None,
            },
            body: opt_string_view(self.body),
            description: opt_string_view(self.description),
        }
    }
}

pub fn clone_opt_string(s: &Option<String>) -> (r: Option<String>)
    ensures
        opt_string_view(r) == opt_string_view(*s),
{
    match s {
        Some(v) => Some(v.clone()),
        None => None,
    }
}

pub fn clone_strings(v: &Vec<String>) -> (r: Vec<String>)
    ensures
        strings_view(r@) == strings_view(v@),
{
    let mut r: Vec<String> = Vec::new();
    let mut i: usize = 0;
    while i < v.len()
        invariant
            i <= v@.len(),
            strings_view(r@) == strings_view(v@.take(i as int)),
        decreases v@.len() - i,
    {
        let s = v[i].clone();
        let ghost old_r = r@;
        r.push(s);
        assert(strings_view(r@) =~= strings_view(old_r).push(v@[i as int]@));
        assert(v@.take(i + 1) =~= v@.take(i as int).push(v@[i as int]));
        assert(strings_view(r@) =~= strings_view(v@.take(i + 1)));
        i = i + 1;
    }
    assert(v@.take(v@.len() as int) =~= v@);
    r
}

impl Clone for Endpoint {
    fn clone(&self) -> (r: Self)
        ensures
            r@ == self@,
    {
        Endpoint {
            path: self.path.clone(),
            authorization: self.authorization,
            method: clone_opt_string(&self.method),
            params: match &self.params {
                Some(v) => Some(clone_strings(v)),
                None => None,
            },
            body: clone_opt_string(&self.body),
            description: clone_opt_string(&self.description),
        }
    }
}

impl Endpoint {
    pub fn need_authorization(&self) -> (r: bool)
        ensures
            r == self@.authorization,
    {
        self.authorization
    }

    pub fn path(&self) -> (r: &str)
        ensures
            r@ == self@.path,
    {
        self.path.as_str()
    }
}

/// What a service configuration is, as values.
pub struct ServiceConfigView {
    pub name: Seq<char>,
    pub address: Seq<char>,
    pub endpoints: Seq<EndpointView>,
}

/// A service: its name, the address requests are forwarded to, and its
/// endpoints.
pub struct ServiceConfig {
    pub name: String,
    pub address: String,
    pub endpoints: Vec<Endpoint>,
}

pub open spec fn endpoints_view(v: Seq<Endpoint>) -> Seq<EndpointView> {
    v.map_values(|e: Endpoint| e@)
}

impl View for ServiceConfig {
    type V = ServiceConfigView;

    open spec fn view(&self) -> ServiceConfigView {
        ServiceConfigView {
            name: self.name@,
            address: self.address@,
            endpoints: endpoints_view(self.endpoints@),
        }
    }
}

/// The part of a request path before its query string.
pub open spec fn path_without_query(path: Seq<char>) -> Seq<char> {
    match split_once(path, '?') {
        Some((p, _)) => p,
        None => path,
    }
}

/// A path with every `/` removed, so that leading and trailing slashes
/// do not matter.
pub open spec fn slashless(path: Seq<char>) -> Seq<char> {
    replace_all(path, seq!['/'], Seq::empty())
}

/// Whether the endpoint serves the request path.
#[verifier::opaque]
pub open spec fn endpoint_serves(e: EndpointView, path: Seq<char>) -> bool {
    slashless(e.path) == slashless(path_without_query(path))
}

/// Index of the first endpoint serving `path`.
pub open spec fn first_serving(eps: Seq<EndpointView>, path: Seq<char>) -> Option<int> {
    if exists|i: int| 0 <= i < eps.len() && endpoint_serves(eps[i], path) {
        Some(choose|i: int| 0 <= i < eps.len() && endpoint_serves(eps[i], path)
            && forall|j: int| 0 <= j < i ==> !endpoint_serves(eps[j], path))
    } else {
        None
    }
}

fn remove_slashes(s: &str) -> (r: String)
    ensures
        r@ == slashless(s@),
{
    proof {
        reveal_strlit("/");
        reveal_strlit("");
        assert("/"@ =~= seq!['/']);
        assert(""@ =~= Seq::<char>::empty());
    }
    replace_str(s, "/", "")
}

impl Clone for ServiceConfig {
    fn clone(&self) -> (r: Self)
        ensures
            r@ == self@,
    {
        let mut eps: Vec<Endpoint> = Vec::new();
        let mut i: usize = 0;
        while i < self.endpoints.len()
            invariant
                i <= self.endpoints@.len(),
                endpoints_view(eps@) == endpoints_view(self.endpoints@.take(i as int)),
            decreases self.endpoints@.len() - i,
        {
            let e = self.endpoints[i].clone();
            let ghost old_eps = eps@;
            eps.push(e);
            assert(endpoints_view(eps@) =~= endpoints_view(old_eps).push(self.endpoints@[i as int]@));
            assert(self.endpoints@.take(i + 1) =~= self.endpoints@.take(i as int).push(self.endpoints@[i as int]));
            assert(endpoints_view(eps@) =~= endpoints_view(self.endpoints@.take(i + 1)));
            i = i + 1;
        }
        assert(self.endpoints@.take(self.endpoints@.len() as int) =~= self.endpoints@);
        ServiceConfig { name: self.name.clone(), address: self.address.clone(), endpoints: eps }
    }
}

impl ServiceConfig {
    /// A service with no endpoints yet.
    pub fn new(name: &str, address: &str) -> (r: Self)
        ensures
            r@ == (ServiceConfigView { name: name@, address: address@, endpoints: Seq::empty() }),
    {
        let r = ServiceConfig { name: name.to_owned(), address: address.to_owned(), endpoints: Vec::new() };
        assert(r@.endpoints =~= Seq::<EndpointView>::empty());
        r
    }

    fn push_endpoint(self, e: Endpoint) -> (r: Self)
        ensures
            r@ == (ServiceConfigView { endpoints: self@.endpoints.push(e@), ..self@ }),
    {
        let mut c = self;
        let ghost old_eps = c.endpoints@;
        c.endpoints.push(e);
        assert(endpoints_view(c.endpoints@) =~= endpoints_view(old_eps).push(e@));
        c
    }

    /// Adds an endpoint called without a body or parameters.
    pub fn add_endpoint(self, path: &str, need_authorization: bool) -> (r: Self)
        ensures
            r@ == (ServiceConfigView {
                endpoints: self@.endpoints.push(EndpointView {
                    path: path@,
                    authorization: need_authorization,
                    method: None,
                    params: None,
                    body: None,
                    description: None,
                }),
                ..self@
            }),
    {
        let e = Endpoint {
            path: path.to_owned(),
            authorization: need_authorization,
            method: None,
            params: None,
            body: None,
            description: None,
        };
        self.push_endpoint(e)
    }

    /// Adds a `POST` endpoint with an example body and a description.
    pub fn add_endpoint_body(self, path: &str, need_authorization: bool, body: &str, description: &str) -> (r: Self)
        ensures
            r@ == (ServiceConfigView {
                endpoints: self@.endpoints.push(EndpointView {
                    path: path@,
                    authorization: need_authorization,
                    method: Some("POST"@),
                    params: None,
                    body: Some(body@),
                    description: Some(description@),
                }),
                ..self@
            }),
    {
        let e = Endpoint {
            path: path.to_owned(),
            authorization: need_authorization,
            method: Some("POST".to_owned()),
            params: None,
            body: Some(body.to_owned()),
            description: Some(description.to_owned()),
        };
        self.push_endpoint(e)
    }

    /// Adds an endpoint that takes the given query parameters.
    pub fn add_endpoint_params(self, path: &str, need_authorization: bool, params: &[&str], description: &str) -> (r: Self)
        ensures
            r@ == (ServiceConfigView {
                endpoints: self@.endpoints.push(EndpointView {
                    path: path@,
                    authorization: need_authorization,
                    method: None,
                    params: Some(params@.map_values(|p: &str| p@)),
                    body: None,
                    description: Some(description@),
                }),
                ..self@
            }),
    {
        let mut ps: Vec<String> = Vec::new();
        let mut i: usize = 0;
        while i < params.len()
            invariant
                i <= params@.len(),
                strings_view(ps@) == params@.take(i as int).map_values(|p: &str| p@),
            decreases params@.len() - i,
        {
            let ghost old_ps = ps@;
            ps.push(params[i].to_owned());
            assert(strings_view(ps@) =~= strings_view(old_ps).push(params@[i as int]@));
            assert(params@.take(i + 1) =~= params@.take(i as int).push(params@[i as int]));
            assert(strings_view(ps@) =~= params@.take(i + 1).map_values(|p: &str| p@));
            i = i + 1;
        }
        assert(params@.take(params@.len() as int) =~= params@);
        let e = Endpoint {
            path: path.to_owned(),
            authorization: need_authorization,
            method: None,
            params: Some(ps),
            body: None,
            description: Some(description.to_owned()),
        };
        self.push_endpoint(e)
    }

    /// The first endpoint serving `path`; the query string and all slashes
    /// are ignored in the comparison.
    pub fn get_endpoint(&self, path: &str) -> (r: Option<&Endpoint>)
        ensures
            r matches Some(e) ==> first_serving(self@.endpoints, path@) matches Some(i)
                && e@ == self@.endpoints[i],
            r is None ==> first_serving(self@.endpoints, path@) is None,
    {
        let target = match split_once_char(path, '?') {
            Some((p, _)) => remove_slashes(p.as_str()),
            None => remove_slashes(path),
        };
        assert(target@ == slashless(path_without_query(path@)));
        let mut i: usize = 0;
        while i < self.endpoints.len()
            invariant
                i <= self.endpoints@.len(),
                target@ == slashless(path_without_query(path@)),
                forall|j: int| 0 <= j < i ==> !endpoint_serves(self@.endpoints[j], path@),
            decreases self.endpoints@.len() - i,
        {
            proof { reveal(endpoint_serves); }
            let key = remove_slashes(self.endpoints[i].path.as_str());
            if key == target {
                let ghost w = choose|k: int| 0 <= k < self@.endpoints.len() && endpoint_serves(self@.endpoints[k], path@)
                    && forall|j: int| 0 <= j < k ==> !endpoint_serves(self@.endpoints[j], path@);
                assert(endpoint_serves(self@.endpoints[i as int], path@));
                assert(w == i) by {
                    if w < i {
                        assert(!endpoint_serves(self@.endpoints[w], path@));
                    } else if w > i {
                        assert(!endpoint_serves(self@.endpoints[i as int], path@));
                    }
                }
                return Some(&self.endpoints[i]);
            }
            i = i + 1;
        }
        None
    }

    pub fn get_name(&self) -> (r: &str)
        ensures
            r@ == self@.name,
    {
        self.name.as_str()
    }

    pub fn get_address(&self) -> (r: &str)
        ensures
            r@ == self@.address,
    {
        self.address.as_str()
    }
}

/// The registered services, by the name they were registered under.
pub struct ServiceRegistry {
    services: StringMap<ServiceConfig>,
}

impl View for ServiceRegistry {
    type V = Map<Seq<char>, ServiceConfigView>;

    closed spec fn view(&self) -> Map<Seq<char>, ServiceConfigView> {
        self.services@
    }
}

impl ServiceRegistry {
    pub closed spec fn wf(&self) -> bool {
        self.services.wf()
    }

    /// The names under which services are registered, in registration order.
    pub closed spec fn names(&self) -> Seq<Seq<char>> {
        self.services.keys()
    }

    /// An empty registry.
    pub fn new() -> (r: Self)
        ensures
            r.wf(),
            r@ == Map::<Seq<char>, ServiceConfigView>::empty(),
    {
        ServiceRegistry { services: StringMap::new() }
    }

    /// A registry holding each of `configs` under its own name; a later
    /// configuration of the same name replaces an earlier one.
    pub fn from_configs(configs: Vec<ServiceConfig>) -> (r: Self)
        ensures
            r.wf(),
            forall|k: Seq<char>| #[trigger] r@.contains_key(k) <==> exists|i: int| 0 <= i < configs@.len() && configs@[i]@.name == k,
            forall|i: int| 0 <= i < configs@.len()
                && (forall|j: int| i < j < configs@.len() ==> configs@[j]@.name != configs@[i]@.name)
                ==> #[trigger] r@[configs@[i]@.name] == configs@[i]@,
    {
        let mut r = ServiceRegistry::new();
        let ghost all = configs@;
        let mut n: usize = 0;
        while n < configs.len()
            invariant
                r.wf(),
                all == configs@,
                n <= all.len(),
                forall|k: Seq<char>| #[trigger] r@.contains_key(k) <==> exists|i: int| 0 <= i < n && all[i]@.name == k,
                forall|i: int| 0 <= i < n && (forall|j: int| i < j < n ==> all[j]@.name != all[i]@.name)
                    ==> #[trigger] r@[all[i]@.name] == all[i]@,
            decreases configs@.len() - n,
        {
            let c = configs[n].clone();
            let name = c.name.clone();
            r.register(name, c);
            proof {
                assert forall|k: Seq<char>| #[trigger] r@.contains_key(k) <==> exists|i: int| 0 <= i < n + 1 && all[i]@.name == k by {
                    if k == all[n as int]@.name {
                        assert(0 <= n < n + 1);
                    } else if r@.contains_key(k) {
                        let i = choose|i: int| 0 <= i < n && all[i]@.name == k;
                        assert(0 <= i < n + 1);
                    } else if exists|i: int| 0 <= i < n + 1 && all[i]@.name == k {
                        let i = choose|i: int| 0 <= i < n + 1 && all[i]@.name == k;
                        assert(0 <= i < n);
                    }
                }
            }
            n = n + 1;
        }
        r
    }

    /// Registers `config` under `name`, replacing an earlier registration.
    pub fn register(&mut self, name: String, config: ServiceConfig)
        requires
            old(self).wf(),
        ensures
            final(self).wf(),
            final(self)@ == old(self)@.insert(name@, config@),
    {
        self.services.insert(name, config);
    }

    /// Removes the service registered under `name`.
    pub fn deregister(&mut self, name: &str)
        requires
            old(self).wf(),
        ensures
            final(self).wf(),
            final(self)@ == old(self)@.remove(name@),
    {
        self.services.remove(name);
    }

    /// The address of the service registered under `name`.
    pub fn get_address(&self, name: &str) -> (r: Option<String>)
        requires
            self.wf(),
        ensures
            r matches Some(a) ==> self@.contains_key(name@) && a@ == self@[name@].address,
            r is None ==> !self@.contains_key(name@),
    {
        match self.services.get(name) {
            Some(c) => Some(c.address.clone()),
            None => None,
        }
    }

    /// The endpoints of the service registered under `name`.
    pub fn get_endpoints(&self, name: &str) -> (r: Option<Vec<Endpoint>>)
        requires
            self.wf(),
        ensures
            r matches Some(v) ==> self@.contains_key(name@) && endpoints_view(v@) == self@[name@].endpoints,
            r is None ==> !self@.contains_key(name@),
    {
        match self.services.get(name) {
            Some(c) => {
                let cc = c.clone();
                Some(cc.endpoints)
            },
            None => None,
        }
    }

    /// The configuration of the service registered under `name`.
    pub fn get_config(&self, name: &str) -> (r: Option<ServiceConfig>)
        requires
            self.wf(),
        ensures
            r matches Some(c) ==> self@.contains_key(name@) && c@ == self@[name@],
            r is None ==> !self@.contains_key(name@),
    {
        match self.services.get(name) {
            Some(c) => Some(c.clone()),
            None => None,
        }
    }

    /// Every registered configuration, in registration order of their names.
    pub fn configs(&self) -> (r: Vec<ServiceConfig>)
        requires
            self.wf(),
        ensures
            r@.len() == self.names().len(),
            r@.len() == self@.dom().len(),
            forall|i: int| 0 <= i < r@.len() ==> #[trigger] r@[i]@ == self@[self.names()[i]],
            self.names().no_duplicates(),
            self.names().to_set() == self@.dom(),
    {
        proof { self.services.lemma_keys(); }
        let n = self.services.len();
        let mut r: Vec<ServiceConfig> = Vec::new();
        let mut i: usize = 0;
        while i < n
            invariant
                self.wf(),
                n == self.names().len(),
                n == self.services.entries().len(),
                i <= n,
                r@.len() == i,
                forall|j: int| 0 <= j < i ==> #[trigger] r@[j]@ == self@[self.names()[j]],
            decreases n - i,
        {
            let c = self.services.value_at(i).clone();
            r.push(c);
            i = i + 1;
        }
        r
    }
}

} // verus!
