//! Properties that hold across the operations of the library.
use vstd::prelude::*;
use crate::gateway::{service_route, unknown_service_message, RouteOutcome};
use crate::gateway::{bearer_token, carries_access};
use crate::jwt::names_user;
use crate::metro::{
    distinct_keys, kept_indexes, kept_stations, least_cost, lemma_nearest_within_zero, lemma_stop_dict_keys, map_of,
    minutes_ceil, nearest_list, shortest_route, stop_dict, walk_cost, walk_nodes, NearestView, StationView,
};
use crate::orders::{
    any_holds, assign_from, assigned_employees, free_picks, holds_worker, overlaps, picks_for,
    AvalibleEmployeesView, CandidateView, Date, OrderView,
};
use crate::rate_limiter::{admits, allowed_of, counted, visits, MAX_VISITS};
use crate::registry::{endpoint_serves, first_serving, path_without_query, slashless, EndpointView, ServiceConfigView};
use crate::text::{first_index_of, replace_all, split_once};
use crate::tokens::{rotated, rotation, wiped, TokenStoreView};

verus! {

/// After a service is registered, looking its name up gives its
/// configuration, and every other name keeps what it had; once the service
/// is removed again, its name is unknown.
pub proof fn law_lookup_after_register(
    before: Map<Seq<char>, ServiceConfigView>,
    config: ServiceConfigView,
    other: Seq<char>,
)
    ensures
        before.insert(config.name, config).contains_key(config.name),
        before.insert(config.name, config)[config.name] == config,
        other != config.name ==> (before.insert(config.name, config).contains_key(other) <==> before.contains_key(other)),
        other != config.name && before.contains_key(other) ==> before.insert(config.name, config)[other] == before[other],
        !before.insert(config.name, config).remove(config.name).contains_key(config.name),
{
}

proof fn lemma_split_at(name: Seq<char>, rest: Seq<char>, c: char)
    requires
        !name.contains(c),
    ensures
        split_once(name + seq![c] + rest, c) == Some((name, rest)),
{
    let p = name + seq![c] + rest;
    let n = name.len() as int;
    assert(p[n] == c);
    assert forall|j: int| 0 <= j < n implies p[j] != c by {
        assert(p[j] == name[j]);
    }
    assert(exists|i: int| 0 <= i < p.len() && p[i] == c);
    let i = choose|i: int| 0 <= i < p.len() && p[i] == c && forall|j: int| 0 <= j < i ==> p[j] != c;
    assert(i == n) by {
        if i < n {
            assert(p[i] == name[i]);
        }
    }
    assert(first_index_of(p, c) == Some(n));
    assert(p.take(n) =~= name);
    assert(p.skip(n + 1) =~= rest);
}

proof fn lemma_split_at_name(name: Seq<char>, rest: Seq<char>)
    requires
        !name.contains('/'),
    ensures
        split_once(name + seq!['/'] + rest, '/') == Some((name, rest)),
{
    lemma_split_at(name, rest, '/');
}

/// A request `/<name>/<rest>` for a service just registered under a name
/// without `/` is forwarded to that service's address, through the first of
/// its endpoints that serves `rest`, whatever was registered before.
pub proof fn law_registered_service_is_routed(
    before: Map<Seq<char>, ServiceConfigView>,
    config: ServiceConfigView,
    rest: Seq<char>,
    uri: Seq<char>,
    path_and_query: Seq<char>,
)
    requires
        !config.name.contains('/'),
        first_serving(config.endpoints, rest) is Some,
    ensures
        ({
            let path = seq!['/'] + config.name + seq!['/'] + rest;
            match service_route(before.insert(config.name, config), uri, path, path_and_query) {
                RouteOutcome::Routed { authority, endpoint, .. } => authority == config.address
                    && endpoint == config.endpoints[first_serving(config.endpoints, rest).unwrap()],
                RouteOutcome::Rejected { .. } => false,
            }
        }),
{
    let path = seq!['/'] + config.name + seq!['/'] + rest;
    let reg = before.insert(config.name, config);
    assert(path.len() > 0 && path[0] == '/');
    assert(path.skip(1) =~= config.name + seq!['/'] + rest);
    lemma_split_at_name(config.name, rest);
    assert(reg.contains_key(config.name) && reg[config.name] == config);
    let i = first_serving(config.endpoints, rest).unwrap();
    assert(service_route(reg, uri, path, path_and_query) == (RouteOutcome::Routed {
        authority: config.address,
        path_and_query: crate::text::replace_all(path_and_query, config.name + seq!['/'], Seq::empty()),
        endpoint: config.endpoints[i],
    }));
}

/// Whether `pat` occurs in `s`.
pub open spec fn occurs_in(pat: Seq<char>, s: Seq<char>) -> bool {
    exists|i: int| 0 <= i && i + pat.len() <= s.len() && #[trigger] s.subrange(i, i + pat.len()) == pat
}

proof fn lemma_replace_absent(s: Seq<char>, pat: Seq<char>, rep: Seq<char>)
    requires
        !occurs_in(pat, s),
    ensures
        replace_all(s, pat, rep) == s,
    decreases s.len(),
{
    if pat.len() == 0 || s.len() < pat.len() {
    } else {
        assert(s.take(pat.len() as int) != pat) by {
            if s.take(pat.len() as int) == pat {
                assert(s.subrange(0int, 0int + pat.len()) =~= s.take(pat.len() as int));
            }
        }
        let t = s.skip(1);
        assert(!occurs_in(pat, t)) by {
            if occurs_in(pat, t) {
                let i = choose|i: int| 0 <= i && i + pat.len() <= t.len() && #[trigger] t.subrange(i, i + pat.len()) == pat;
                assert(s.subrange(i + 1, i + 1 + pat.len()) =~= t.subrange(i, i + pat.len()));
            }
        }
        lemma_replace_absent(t, pat, rep);
        assert(seq![s[0]] + t =~= s);
    }
}

/// The forwarded path and query of `/<name>/<tail>` is `/<tail>`, when
/// the name is not empty, holds no `/`, and `<name>/` does not occur in
/// the tail (every occurrence would be removed).
pub proof fn law_forwarded_path_drops_service(name: Seq<char>, tail: Seq<char>)
    requires
        name.len() > 0,
        !name.contains('/'),
        !occurs_in(name + seq!['/'], tail),
    ensures
        replace_all(seq!['/'] + name + seq!['/'] + tail, name + seq!['/'], Seq::empty()) == seq!['/'] + tail,
{
    let pat = name + seq!['/'];
    let s = seq!['/'] + name + seq!['/'] + tail;
    assert(s.take(pat.len() as int)[0] == '/');
    assert(pat[0] == name[0]);
    assert(s.take(pat.len() as int) != pat);
    let t = s.skip(1);
    assert(t =~= pat + tail);
    assert(t.take(pat.len() as int) =~= pat);
    assert(t.skip(pat.len() as int) =~= tail);
    lemma_replace_absent(tail, pat, Seq::empty());
    assert(replace_all(t, pat, Seq::empty()) =~= tail);
    assert(seq![s[0]] + tail =~= seq!['/'] + tail);
}

/// Once a service is removed, a request `/<name>/<rest>` for it is answered
/// `404` with the unknown-service message.
pub proof fn law_deregistered_service_is_unknown(
    before: Map<Seq<char>, ServiceConfigView>,
    name: Seq<char>,
    rest: Seq<char>,
    uri: Seq<char>,
    path_and_query: Seq<char>,
)
    requires
        !name.contains('/'),
    ensures
        service_route(before.remove(name), uri, seq!['/'] + name + seq!['/'] + rest, path_and_query)
            == (RouteOutcome::Rejected { status: 404, message: unknown_service_message(name) }),
{
    let path = seq!['/'] + name + seq!['/'] + rest;
    assert(path.skip(1) =~= name + seq!['/'] + rest);
    lemma_split_at_name(name, rest);
}

/// A refresh token that was exchanged is no longer live, and is remembered
/// among the exchanged tokens of a user; so a second exchange of it cannot
/// succeed. The new refresh token is live with the new access token.
pub proof fn law_exchanged_refresh_is_retired(
    before: TokenStoreView,
    key: Seq<char>,
    refresh: Seq<char>,
    access: Seq<char>,
    after: TokenStoreView,
)
    requires
        rotation(before, key, refresh, access, after),
    ensures
        !after.pairs.contains_key(key),
        exists|user: Seq<char>| #[trigger] after.expired.contains_key(user) && after.expired[user].contains(key),
        refresh != key ==> after.pairs.contains_key(refresh) && after.pairs[refresh] == access,
{
    let user = choose|user: Seq<char>| #[trigger] rotated(before, key, user, refresh, access) == after;
    let list = after.expired[user];
    assert(list[list.len() - 1] == key);
    assert(after.expired.contains_key(user) && after.expired[user].contains(key));
}

/// Reusing an exchanged refresh token revokes every pair whose refresh
/// token that user had exchanged, forgets the user's list, and leaves the
/// other users' lists alone.
pub proof fn law_reuse_revokes_user(before: TokenStoreView, user: Seq<char>, other: Seq<char>)
    ensures
        before.expired.contains_key(user) ==> forall|k: Seq<char>| #[trigger] before.expired[user].contains(k)
            ==> !wiped(before, user).pairs.contains_key(k),
        !wiped(before, user).expired.contains_key(user),
        other != user ==> (wiped(before, user).expired.contains_key(other) <==> before.expired.contains_key(other)),
        other != user && before.expired.contains_key(other) ==> wiped(before, user).expired[other] == before.expired[other],
{
}

/// A client gets exactly as many of its next `n` requests allowed as it has
/// left of its five: every request beyond them is refused.
pub proof fn law_allowance(m: Map<Seq<char>, u32>, addr: Seq<char>, n: nat)
    requires
        visits(m, addr) <= MAX_VISITS,
    ensures
        allowed_of(m, addr, n) == if n < MAX_VISITS - visits(m, addr) { n } else { (MAX_VISITS - visits(m, addr)) as nat },
    decreases n,
{
    if n > 0 {
        law_allowance(counted(m, addr), addr, (n - 1) as nat);
    }
}

/// A request of one client leaves the count of every other client as it was.
pub proof fn law_clients_independent(m: Map<Seq<char>, u32>, addr: Seq<char>, other: Seq<char>)
    requires
        other != addr,
    ensures
        visits(counted(m, addr), other) == visits(m, other),
        admits(counted(m, addr), other) == admits(m, other),
{
}

/// An accepted order whose id no earlier order has is the one that a lookup
/// by that id finds: the first order with the id is the new one.
pub proof fn law_accepted_order_is_found(orders: Seq<OrderView>, order: OrderView)
    requires
        forall|j: int| 0 <= j < orders.len() ==> (#[trigger] orders[j]).id != order.id,
    ensures
        ({
            let book = orders.push(order);
            &&& exists|i: int| 0 <= i < book.len() && book[i].id == order.id
                && forall|j: int| 0 <= j < i ==> (#[trigger] book[j]).id != order.id
            &&& forall|i: int| 0 <= i < book.len() && book[i].id == order.id
                && (forall|j: int| 0 <= j < i ==> (#[trigger] book[j]).id != order.id) ==> book[i] == order
        }),
{
    let book = orders.push(order);
    let n = orders.len() as int;
    assert(book[n] == order);
    assert forall|j: int| 0 <= j < n implies (#[trigger] book[j]).id != order.id by {
        assert(book[j] == orders[j]);
    }
    assert forall|i: int| 0 <= i < book.len() && book[i].id == order.id
        && (forall|j: int| 0 <= j < i ==> (#[trigger] book[j]).id != order.id) implies book[i] == order by {
        if i < n {
            assert(book[i] == orders[i]);
        }
    }
}

proof fn lemma_free_picks_are_employee(orders: Seq<OrderView>, worker: Seq<char>, employee: Seq<char>, o1: Date, o2: Date)
    ensures
        forall|k: int| 0 <= k < free_picks(orders, worker, employee, o1, o2).len()
            ==> #[trigger] free_picks(orders, worker, employee, o1, o2)[k] == employee,
    decreases orders.len(),
{
    if orders.len() > 0 {
        let prev = orders.drop_last();
        lemma_free_picks_are_employee(prev, worker, employee, o1, o2);
        let fp = free_picks(orders, worker, employee, o1, o2);
        let pp = free_picks(prev, worker, employee, o1, o2);
        assert(fp == pp || fp == pp.push(employee));
        assert forall|k: int| 0 <= k < fp.len() implies #[trigger] fp[k] == employee by {
            if k < pp.len() {
                assert(fp[k] == pp[k]);
            }
        }
    }
}

proof fn lemma_assign_from_sources(
    orders: Seq<OrderView>,
    cands: Seq<CandidateView>,
    count: u32,
    o1: Date,
    o2: Date,
    acc: Seq<Seq<char>>,
    i: int,
)
    requires
        0 <= i,
    ensures
        forall|x: Seq<char>| #[trigger] assign_from(orders, cands, count, o1, o2, acc, i).contains(x)
            ==> acc.contains(x) || exists|j: int| 0 <= j < cands.len() && cands[j].0.employee_id == x,
    decreases cands.len() - i,
{
    if i < cands.len() {
        let a = cands[i].0;
        let picks = picks_for(orders, a, o1, o2);
        let acc2 = acc + picks;
        lemma_free_picks_are_employee(orders, a.id, a.employee_id, o1, o2);
        assert forall|x: Seq<char>| #[trigger] acc2.contains(x)
            implies acc.contains(x) || exists|j: int| 0 <= j < cands.len() && cands[j].0.employee_id == x by {
            let k = choose|k: int| 0 <= k < acc2.len() && acc2[k] == x;
            if k < acc.len() {
                assert(acc[k] == x);
            } else {
                assert(picks[k - acc.len()] == x);
                assert(x == a.employee_id);
            }
        }
        if acc2.len() != count {
            lemma_assign_from_sources(orders, cands, count, o1, o2, acc2, i + 1);
            assert(assign_from(orders, cands, count, o1, o2, acc, i) == assign_from(orders, cands, count, o1, o2, acc2, i + 1));
        } else {
            assert(assign_from(orders, cands, count, o1, o2, acc, i) == acc2);
        }
    } else {
        assert(assign_from(orders, cands, count, o1, o2, acc, i) == acc);
    }
}

/// Every employee assigned to an order is the employee of one of the
/// candidates.
pub proof fn law_assigned_are_candidates(
    orders: Seq<OrderView>,
    cands: Seq<CandidateView>,
    count: u32,
    o1: Date,
    o2: Date,
)
    ensures
        forall|x: Seq<char>| #[trigger] assigned_employees(orders, cands, count, o1, o2).contains(x)
            ==> exists|j: int| 0 <= j < cands.len() && cands[j].0.employee_id == x,
{
    lemma_assign_from_sources(orders, cands, count, o1, o2, Seq::empty(), 0);
}

/// The employees of the candidates, in order.
pub open spec fn candidate_employees(cands: Seq<CandidateView>) -> Seq<Seq<char>> {
    cands.map_values(|c: CandidateView| c.0.employee_id)
}

proof fn lemma_free_candidates_in_order(
    orders: Seq<OrderView>,
    cands: Seq<CandidateView>,
    count: u32,
    o1: Date,
    o2: Date,
    acc: Seq<Seq<char>>,
    i: int,
)
    requires
        0 <= i <= cands.len(),
        acc == candidate_employees(cands.take(i)),
        count == 0 || i < count,
        forall|j: int| 0 <= j < cands.len() ==> !any_holds(orders, #[trigger] cands[j].0.id),
    ensures
        assign_from(orders, cands, count, o1, o2, acc, i)
            == candidate_employees(cands.take(if 1 <= count <= cands.len() { count as int } else { cands.len() as int })),
    decreases cands.len() - i,
{
    if i < cands.len() {
        let a = cands[i].0;
        assert(!any_holds(orders, a.id));
        let acc2 = acc + picks_for(orders, a, o1, o2);
        assert(cands.take(i + 1) =~= cands.take(i).push(cands[i]));
        assert(acc2 =~= candidate_employees(cands.take(i + 1)));
        if acc2.len() != count {
            lemma_free_candidates_in_order(orders, cands, count, o1, o2, acc2, i + 1);
        }
    } else {
        assert(cands.take(i) =~= cands);
    }
}

/// When no candidate is listed in any order, the employees assigned are
/// those of the first `count` candidates, in order, or of all candidates
/// when there are fewer, or when `count` is 0.
pub proof fn law_free_candidates_taken_in_order(
    orders: Seq<OrderView>,
    cands: Seq<CandidateView>,
    count: u32,
    o1: Date,
    o2: Date,
)
    requires
        forall|j: int| 0 <= j < cands.len() ==> !any_holds(orders, #[trigger] cands[j].0.id),
    ensures
        assigned_employees(orders, cands, count, o1, o2)
            == candidate_employees(cands.take(if 1 <= count <= cands.len() { count as int } else { cands.len() as int })),
{
    assert(cands.take(0) =~= Seq::<CandidateView>::empty());
    assert(candidate_employees(cands.take(0)) =~= Seq::<Seq<char>>::empty());
    lemma_free_candidates_in_order(orders, cands, count, o1, o2, Seq::empty(), 0);
}

proof fn lemma_no_free_picks(orders: Seq<OrderView>, worker: Seq<char>, employee: Seq<char>, o1: Date, o2: Date)
    requires
        forall|j: int| 0 <= j < orders.len() && holds_worker(#[trigger] orders[j], worker)
            ==> overlaps(o1, o2, orders[j].start_work, orders[j].end_work),
    ensures
        free_picks(orders, worker, employee, o1, o2).len() == 0,
    decreases orders.len(),
{
    if orders.len() > 0 {
        let prev = orders.drop_last();
        assert forall|j: int| 0 <= j < prev.len() && holds_worker(#[trigger] prev[j], worker)
            implies overlaps(o1, o2, prev[j].start_work, prev[j].end_work) by {
            assert(prev[j] == orders[j]);
        }
        lemma_no_free_picks(prev, worker, employee, o1, o2);
        assert(orders.last() == orders[orders.len() - 1]);
    }
}

/// A candidate listed in some order, whose every order overlaps the new
/// order's busy time, adds no employee to it.
pub proof fn law_busy_candidate_not_picked(orders: Seq<OrderView>, candidate: AvalibleEmployeesView, o1: Date, o2: Date)
    requires
        any_holds(orders, candidate.id),
        forall|j: int| 0 <= j < orders.len() && holds_worker(#[trigger] orders[j], candidate.id)
            ==> overlaps(o1, o2, orders[j].start_work, orders[j].end_work),
    ensures
        picks_for(orders, candidate, o1, o2).len() == 0,
{
    lemma_no_free_picks(orders, candidate.id, candidate.employee_id, o1, o2);
}

proof fn lemma_kept_index_station(dict: Map<Seq<char>, StationView>, ids: Seq<Seq<char>>)
    requires
        ids.len() < u32::MAX,
    ensures
        kept_stations(dict, ids).len() <= ids.len(),
        forall|k: Seq<char>| #[trigger] kept_indexes(dict, ids).contains_key(k) ==> dict.contains_key(k)
            && kept_indexes(dict, ids)[k] < kept_stations(dict, ids).len()
            && kept_stations(dict, ids)[kept_indexes(dict, ids)[k] as int] == dict[k],
    decreases ids.len(),
{
    if ids.len() > 0 {
        let prev = ids.drop_last();
        let l = ids.last();
        lemma_kept_index_station(dict, prev);
        let ks = kept_stations(dict, prev);
        let ki = kept_indexes(dict, prev);
        if dict.contains_key(l) {
            assert(kept_stations(dict, ids) == ks.push(dict[l]));
            assert(kept_indexes(dict, ids) == ki.insert(l, ks.len() as u32));
            assert forall|k: Seq<char>| #[trigger] kept_indexes(dict, ids).contains_key(k) implies dict.contains_key(k)
                && kept_indexes(dict, ids)[k] < kept_stations(dict, ids).len()
                && kept_stations(dict, ids)[kept_indexes(dict, ids)[k] as int] == dict[k] by {
                if k == l {
                    assert(kept_indexes(dict, ids)[k] == ks.len());
                } else {
                    assert(ki.contains_key(k));
                    assert(kept_indexes(dict, ids)[k] == ki[k]);
                    assert(kept_stations(dict, ids)[ki[k] as int] == ks[ki[k] as int]);
                }
            }
        } else {
            assert(kept_stations(dict, ids) == ks);
            assert(kept_indexes(dict, ids) == ki);
        }
    }
}

/// In a map built from stops and node ids, every node id the map knows leads
/// to a station carrying that node id.
pub proof fn law_index_names_its_station(stops: Seq<StationView>, ids: Seq<Seq<char>>, k: Seq<char>)
    requires
        ids.len() < u32::MAX,
        kept_indexes(stop_dict(stops), ids).contains_key(k),
    ensures
        kept_indexes(stop_dict(stops), ids)[k] < kept_stations(stop_dict(stops), ids).len(),
        kept_stations(stop_dict(stops), ids)[kept_indexes(stop_dict(stops), ids)[k] as int].node_id == k,
{
    lemma_kept_index_station(stop_dict(stops), ids);
    lemma_stop_dict_keys(stops);
}

/// Every station the nearest-stations query lists is reached within the
/// time limit, in whole minutes rounded up, when the travel times in seconds
/// fit in `u32`.
pub proof fn law_nearest_within_limit(stations: Seq<StationView>, start: u32, limit: u32, costs: Seq<(u32, u64)>)
    requires
        forall|i: int| 0 <= i < costs.len() ==> #[trigger] costs[i].1 <= u32::MAX,
    ensures
        forall|k: int| 0 <= k < nearest_list(stations, start, limit, costs).len()
            ==> #[trigger] nearest_list(stations, start, limit, costs)[k].time <= limit,
    decreases costs.len(),
{
    if costs.len() > 0 {
        let prev = costs.drop_last();
        assert forall|i: int| 0 <= i < prev.len() implies #[trigger] prev[i].1 <= u32::MAX by {
            assert(prev[i] == costs[i]);
        }
        law_nearest_within_limit(stations, start, limit, prev);
        let (n, c) = costs.last();
        assert(costs.last() == costs[costs.len() - 1]);
        let pl = nearest_list(stations, start, limit, prev);
        let l = nearest_list(stations, start, limit, costs);
        if (c as u32) / 60 < limit && n != start {
            assert(c as u32 == c);
            assert((c as int + 59) / 60 <= limit) by (nonlinear_arith)
                requires c / 60 < limit, 0 <= c;
            assert forall|k: int| 0 <= k < l.len() implies #[trigger] l[k].time <= limit by {
                if k < pl.len() {
                    assert(l[k] == pl[k]);
                }
            }
        } else {
            assert(l == pl);
        }
    }
}

/// A path without `?` is its own path without query.
proof fn lemma_no_query(p: Seq<char>)
    requires
        !p.contains('?'),
    ensures
        path_without_query(p) == p,
{
    assert(!(exists|i: int| 0 <= i < p.len() && p[i] == '?'));
}

/// Two request paths that every endpoint serves alike have the same first
/// serving endpoint.
proof fn lemma_same_first_serving(eps: Seq<EndpointView>, a: Seq<char>, b: Seq<char>)
    requires
        slashless(path_without_query(a)) == slashless(path_without_query(b)),
    ensures
        first_serving(eps, a) == first_serving(eps, b),
{
    assert forall|e: EndpointView| #[trigger] endpoint_serves(e, a) == endpoint_serves(e, b) by {
        reveal(endpoint_serves);
    }
    lemma_first_serving_alike(eps, a, b);
}

proof fn lemma_first_exists(eps: Seq<EndpointView>, path: Seq<char>, k: int)
    requires
        0 <= k < eps.len(),
        endpoint_serves(eps[k], path),
    ensures
        exists|i: int| 0 <= i < eps.len() && endpoint_serves(eps[i], path)
            && forall|j: int| 0 <= j < i ==> !endpoint_serves(eps[j], path),
    decreases k,
{
    if exists|j: int| 0 <= j < k && endpoint_serves(eps[j], path) {
        let j = choose|j: int| 0 <= j < k && endpoint_serves(eps[j], path);
        lemma_first_exists(eps, path, j);
    } else {
        assert(forall|j: int| 0 <= j < k ==> !endpoint_serves(eps[j], path));
    }
}

proof fn lemma_first_serving_alike(eps: Seq<EndpointView>, a: Seq<char>, b: Seq<char>)
    requires
        forall|e: EndpointView| #[trigger] endpoint_serves(e, a) == endpoint_serves(e, b),
    ensures
        first_serving(eps, a) == first_serving(eps, b),
{
    if exists|k: int| 0 <= k < eps.len() && endpoint_serves(eps[k], a) {
        let k = choose|k: int| 0 <= k < eps.len() && endpoint_serves(eps[k], a);
        assert(endpoint_serves(eps[k], b));
        lemma_first_exists(eps, a, k);
        lemma_first_exists(eps, b, k);
        let i = first_serving(eps, a).unwrap();
        let j = first_serving(eps, b).unwrap();
        assert(endpoint_serves(eps[i], b));
        assert(endpoint_serves(eps[j], a));
        assert(i == j) by {
            if i < j {
                assert(!endpoint_serves(eps[i], b));
            } else if j < i {
                assert(!endpoint_serves(eps[j], a));
            }
        }
    } else {
        assert forall|k: int| 0 <= k < eps.len() implies !endpoint_serves(eps[k], b) by {
            assert(endpoint_serves(eps[k], a) == endpoint_serves(eps[k], b));
        }
    }
}

/// An endpoint is found for a path without `?` whatever query follows the
/// path: the query string is ignored.
pub proof fn law_query_ignored(eps: Seq<EndpointView>, p: Seq<char>, q: Seq<char>)
    requires
        !p.contains('?'),
    ensures
        first_serving(eps, p + seq!['?'] + q) == first_serving(eps, p),
{
    lemma_split_at(p, q, '?');
    lemma_no_query(p);
    lemma_same_first_serving(eps, p + seq!['?'] + q, p);
}

proof fn lemma_slashless_concat(a: Seq<char>, b: Seq<char>)
    ensures
        slashless(a + b) == slashless(a) + slashless(b),
    decreases a.len(),
{
    if a.len() == 0 {
        assert(a + b =~= b);
        assert(slashless(a) =~= Seq::<char>::empty());
        assert(Seq::<char>::empty() + slashless(b) =~= slashless(b));
    } else {
        let s = a + b;
        lemma_slashless_concat(a.skip(1), b);
        assert(s.skip(1) =~= a.skip(1) + b);
        assert(s.take(1) =~= a.take(1));
        if a.take(1) == seq!['/'] {
            assert(slashless(s) =~= Seq::<char>::empty() + slashless(s.skip(1)));
            assert(slashless(a) =~= Seq::<char>::empty() + slashless(a.skip(1)));
            assert(slashless(s) =~= slashless(a) + slashless(b));
        } else {
            assert(s[0] == a[0]);
            assert(slashless(s) =~= seq![a[0]] + slashless(s.skip(1)));
            assert(slashless(a) =~= seq![a[0]] + slashless(a.skip(1)));
            assert(slashless(s) =~= slashless(a) + slashless(b));
        }
    }
}

proof fn lemma_slashless_slash()
    ensures
        slashless(seq!['/']) == Seq::<char>::empty(),
{
    assert(seq!['/'].take(1) =~= seq!['/']);
    assert(seq!['/'].skip(1) =~= Seq::<char>::empty());
    assert(slashless(seq!['/']) =~= Seq::<char>::empty() + slashless(Seq::<char>::empty()));
}

/// An endpoint is found for a path without `?` alike with or without a
/// leading slash, and with or without a trailing one.
pub proof fn law_slashes_ignored(eps: Seq<EndpointView>, p: Seq<char>)
    requires
        !p.contains('?'),
    ensures
        first_serving(eps, seq!['/'] + p + seq!['/']) == first_serving(eps, p),
        first_serving(eps, seq!['/'] + p) == first_serving(eps, p),
        first_serving(eps, p + seq!['/']) == first_serving(eps, p),
        eps.len() == 0 ==> first_serving(eps, p) is None,
{
    let both = seq!['/'] + p + seq!['/'];
    let lead = seq!['/'] + p;
    let trail = p + seq!['/'];
    assert(!both.contains('?')) by {
        if both.contains('?') {
            let i = choose|i: int| 0 <= i < both.len() && both[i] == '?';
            assert(p[i - 1] == '?');
        }
    }
    assert(!lead.contains('?')) by {
        if lead.contains('?') {
            let i = choose|i: int| 0 <= i < lead.len() && lead[i] == '?';
            assert(p[i - 1] == '?');
        }
    }
    assert(!trail.contains('?')) by {
        if trail.contains('?') {
            let i = choose|i: int| 0 <= i < trail.len() && trail[i] == '?';
            assert(p[i] == '?');
        }
    }
    lemma_no_query(p);
    lemma_no_query(both);
    lemma_no_query(lead);
    lemma_no_query(trail);
    lemma_slashless_slash();
    lemma_slashless_concat(seq!['/'], p);
    lemma_slashless_concat(lead, seq!['/']);
    lemma_slashless_concat(p, seq!['/']);
    assert(Seq::<char>::empty() + slashless(p) =~= slashless(p));
    assert(slashless(p) + Seq::<char>::empty() =~= slashless(p));
    lemma_same_first_serving(eps, both, p);
    lemma_same_first_serving(eps, lead, p);
    lemma_same_first_serving(eps, trail, p);
}

/// Whether a node and its cost make a nearest-stations entry from `start`
/// within `limit`.
spec fn near_enough(start: u32, limit: u32, e: (u32, u64)) -> bool {
    (e.1 as u32) / 60 < limit && e.0 != start
}

spec fn near_entry(stations: Seq<StationView>, e: (u32, u64)) -> NearestView {
    NearestView { time: minutes_ceil(e.1), station: stations[e.0 as int] }
}

/// Each entry of a nearest-stations list comes from a cost near enough.
proof fn lemma_nearest_from(stations: Seq<StationView>, start: u32, limit: u32, costs: Seq<(u32, u64)>)
    ensures
        forall|k: int| 0 <= k < nearest_list(stations, start, limit, costs).len() ==> exists|i: int|
            0 <= i < costs.len() && near_enough(start, limit, costs[i])
                && #[trigger] nearest_list(stations, start, limit, costs)[k] == near_entry(stations, costs[i]),
    decreases costs.len(),
{
    if costs.len() > 0 {
        let prev = costs.drop_last();
        lemma_nearest_from(stations, start, limit, prev);
        let l = nearest_list(stations, start, limit, costs);
        let p = nearest_list(stations, start, limit, prev);
        assert forall|k: int| 0 <= k < l.len() implies exists|i: int|
            0 <= i < costs.len() && near_enough(start, limit, costs[i]) && #[trigger] l[k] == near_entry(stations, costs[i]) by {
            if k < p.len() {
                assert(l[k] == p[k]);
                let i = choose|i: int| 0 <= i < prev.len() && near_enough(start, limit, prev[i]) && p[k] == near_entry(stations, prev[i]);
                assert(costs[i] == prev[i]);
            } else {
                assert(near_enough(start, limit, costs[costs.len() - 1]));
                assert(l[k] == near_entry(stations, costs[costs.len() - 1]));
            }
        }
    }
}

/// Every cost near enough makes an entry of the nearest-stations list.
proof fn lemma_nearest_has(stations: Seq<StationView>, start: u32, limit: u32, costs: Seq<(u32, u64)>, i: int)
    requires
        0 <= i < costs.len(),
        near_enough(start, limit, costs[i]),
    ensures
        nearest_list(stations, start, limit, costs).contains(near_entry(stations, costs[i])),
    decreases costs.len(),
{
    let prev = costs.drop_last();
    let l = nearest_list(stations, start, limit, costs);
    if i < costs.len() - 1 {
        assert(prev[i] == costs[i]);
        lemma_nearest_has(stations, start, limit, prev, i);
        let p = nearest_list(stations, start, limit, prev);
        let j = choose|j: int| 0 <= j < p.len() && p[j] == near_entry(stations, costs[i]);
        assert(l[j] == p[j]);
    } else {
        assert(l[l.len() - 1] == near_entry(stations, costs[i]));
    }
}

/// In a list of distinct keys, the map's value of a listed key is its own.
proof fn lemma_map_of_entry(costs: Seq<(u32, u64)>, i: int)
    requires
        distinct_keys(costs),
        0 <= i < costs.len(),
    ensures
        map_of(costs).contains_key(costs[i].0),
        map_of(costs)[costs[i].0] == costs[i].1,
{
    let k = costs[i].0;
    assert(map_of(costs).dom().contains(k));
    let j = choose|j: int| 0 <= j < costs.len() && costs[j].0 == k;
    assert(j == i);
}

/// The nearest stations within a limit are among those within a larger
/// limit, each with the same time, whichever order the search lists the
/// same costs in; within no time, there are none.
pub proof fn law_nearest_monotone(
    stations: Seq<StationView>,
    start: u32,
    t1: u32,
    t2: u32,
    c1: Seq<(u32, u64)>,
    c2: Seq<(u32, u64)>,
)
    requires
        t1 <= t2,
        distinct_keys(c1),
        distinct_keys(c2),
        map_of(c1) == map_of(c2),
    ensures
        forall|k: int| 0 <= k < nearest_list(stations, start, t1, c1).len()
            ==> nearest_list(stations, start, t2, c2).contains(#[trigger] nearest_list(stations, start, t1, c1)[k]),
        nearest_list(stations, start, 0, c1).len() == 0,
{
    lemma_nearest_within_zero(stations, start, c1);
    lemma_nearest_from(stations, start, t1, c1);
    let l1 = nearest_list(stations, start, t1, c1);
    let l2 = nearest_list(stations, start, t2, c2);
    assert forall|k: int| 0 <= k < l1.len() implies l2.contains(#[trigger] l1[k]) by {
        let i = choose|i: int| 0 <= i < c1.len() && near_enough(start, t1, c1[i]) && l1[k] == near_entry(stations, c1[i]);
        lemma_map_of_entry(c1, i);
        let n = c1[i].0;
        assert(map_of(c2).contains_key(n));
        assert(map_of(c2).dom().contains(n));
        let j = choose|j: int| 0 <= j < c2.len() && c2[j].0 == n;
        lemma_map_of_entry(c2, j);
        assert(c2[j] == c1[i]);
        lemma_nearest_has(stations, start, t2, c2, j);
    }
}

proof fn lemma_kept_found(dict: Map<Seq<char>, StationView>, ids: Seq<Seq<char>>)
    requires
        ids.len() < u32::MAX,
        ids.no_duplicates(),
        forall|k: Seq<char>| #[trigger] dict.contains_key(k) ==> dict[k].node_id == k,
    ensures
        forall|i: int| 0 <= i < kept_stations(dict, ids).len() ==> ids.contains(#[trigger] kept_stations(dict, ids)[i].node_id)
            && kept_indexes(dict, ids).contains_key(kept_stations(dict, ids)[i].node_id)
            && kept_indexes(dict, ids)[kept_stations(dict, ids)[i].node_id] == i,
    decreases ids.len(),
{
    if ids.len() > 0 {
        let prev = ids.drop_last();
        let l = ids.last();
        assert(prev.no_duplicates());
        crate::metro::lemma_kept_len(dict, prev);
        lemma_kept_found(dict, prev);
        let ks = kept_stations(dict, prev);
        let ki = kept_indexes(dict, prev);
        assert(!prev.contains(l)) by {
            if prev.contains(l) {
                let j = choose|j: int| 0 <= j < prev.len() && prev[j] == l;
                assert(ids[j] == ids[ids.len() - 1]);
            }
        }
        if dict.contains_key(l) {
            assert(kept_stations(dict, ids) == ks.push(dict[l]));
            assert(kept_indexes(dict, ids) == ki.insert(l, ks.len() as u32));
            assert forall|i: int| 0 <= i < kept_stations(dict, ids).len() implies ids.contains(#[trigger] kept_stations(dict, ids)[i].node_id)
                && kept_indexes(dict, ids).contains_key(kept_stations(dict, ids)[i].node_id)
                && kept_indexes(dict, ids)[kept_stations(dict, ids)[i].node_id] == i by {
                if i < ks.len() {
                    assert(kept_stations(dict, ids)[i] == ks[i]);
                    let j = choose|j: int| 0 <= j < prev.len() && prev[j] == ks[i].node_id;
                    assert(ids[j] == prev[j]);
                    assert(ks[i].node_id != l);
                } else {
                    assert(ids[ids.len() - 1] == l);
                }
            }
        } else {
            assert(kept_stations(dict, ids) == ks);
            assert(kept_indexes(dict, ids) == ki);
            assert forall|i: int| 0 <= i < ks.len() implies ids.contains(#[trigger] ks[i].node_id) by {
                let j = choose|j: int| 0 <= j < prev.len() && prev[j] == ks[i].node_id;
                assert(ids[j] == prev[j]);
            }
        }
    }
}

/// The route search and the nearest-stations search agree: a shortest route
/// to a node costs the least cost that the nearest-stations search gives
/// that node.
pub proof fn law_route_cost_is_least_cost(
    edges: Seq<(u32, u32, u64)>,
    from: u32,
    to: u32,
    cost: int,
    nodes: Seq<u32>,
    least: int,
)
    requires
        shortest_route(edges, from, to, cost, nodes),
        least_cost(edges, from, to, least),
    ensures
        cost == least,
{
    let s1 = choose|steps: Seq<int>| #[trigger] walk_cost(edges, from, to, steps) == Some(cost) && walk_nodes(edges, from, steps) == nodes;
    let s2 = choose|steps: Seq<int>| #[trigger] walk_cost(edges, from, to, steps) == Some(least);
    assert(walk_cost(edges, from, to, s1) == Some(cost));
    assert(walk_cost(edges, from, to, s2) == Some(least));
}

/// In a map built from node ids listed once each, every station of the map
/// is found by its node id, at its own position.
pub proof fn law_listed_station_found(stops: Seq<StationView>, ids: Seq<Seq<char>>)
    requires
        ids.len() < u32::MAX,
        ids.no_duplicates(),
    ensures
        forall|i: int| 0 <= i < kept_stations(stop_dict(stops), ids).len() ==> {
            let k = #[trigger] kept_stations(stop_dict(stops), ids)[i].node_id;
            &&& kept_indexes(stop_dict(stops), ids).contains_key(k)
            &&& kept_indexes(stop_dict(stops), ids)[k] == i
        },
{
    lemma_stop_dict_keys(stops);
    lemma_kept_found(stop_dict(stops), ids);
}

/// A refresh token is never taken for an access token: where the token of
/// an `Authorization` header verifies as a refresh token, the header carries
/// no user's access.
pub proof fn law_refresh_is_not_access(key: Seq<u8>, header: Seq<char>, user: Seq<char>, other: Seq<char>)
    requires
        names_user(bearer_token(header), key, "refresh"@, user),
    ensures
        !carries_access(key, header, other),
{
    reveal_strlit("refresh");
    reveal_strlit("access");
    assert("refresh"@.len() != "access"@.len());
}

} // verus!
