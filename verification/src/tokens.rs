//! Bookkeeping of issued refresh/access token pairs and of refresh tokens
//! that were already used, per user.
use vstd::prelude::*;
use crate::keyed::StringMap;
use crate::registry::strings_view;

verus! {

/// The token bookkeeping, as values.
pub struct TokenStoreView {
    /// Live pairs: refresh token to the access token issued with it.
    pub pairs: Map<Seq<char>, Seq<char>>,
    /// For each user, the refresh tokens that were already exchanged.
    pub expired: Map<Seq<char>, Seq<Seq<char>>>,
}

/// The state after a refresh token failed validation: its pair is dropped,
/// and so is the expired list of one user holding it, if any does.
pub open spec fn rejected(s: TokenStoreView, key: Seq<char>, t: TokenStoreView) -> bool {
    &&& t.pairs == s.pairs.remove(key)
    &&& if exists|u: Seq<char>| #[trigger] s.expired.contains_key(u) && s.expired[u].contains(key) {
        exists|u: Seq<char>| #[trigger] s.expired.contains_key(u) && s.expired[u].contains(key)
            && t.expired == s.expired.remove(u)
    } else {
        t.expired == s.expired
    }
}

/// `key` recorded as exchanged by `user`.
pub open spec fn retired(s: TokenStoreView, key: Seq<char>, user: Seq<char>) -> TokenStoreView {
    TokenStoreView {
        pairs: s.pairs,
        expired: s.expired.insert(
            user,
            if s.expired.contains_key(user) { s.expired[user].push(key) } else { seq![key] },
        ),
    }
}

/// The state after `key`, live and belonging to `user`, was exchanged for
/// the new pair `refresh`/`access`.
pub open spec fn rotated(
    s: TokenStoreView,
    key: Seq<char>,
    user: Seq<char>,
    refresh: Seq<char>,
    access: Seq<char>,
) -> TokenStoreView {
    let r = retired(s, key, user);
    TokenStoreView { pairs: r.pairs.insert(refresh, access).remove(key), expired: r.expired }
}

/// `t` is the state after `key` was exchanged for `refresh`/`access` by
/// some user.
pub open spec fn rotation(s: TokenStoreView, key: Seq<char>, refresh: Seq<char>, access: Seq<char>, t: TokenStoreView) -> bool {
    exists|user: Seq<char>| #[trigger] rotated(s, key, user, refresh, access) == t
}

/// The state after a reuse of an exchanged refresh token of `user`: every
/// pair of that user's exchanged tokens and the user's list are dropped.
pub open spec fn wiped(s: TokenStoreView, user: Seq<char>) -> TokenStoreView {
    TokenStoreView {
        pairs: if s.expired.contains_key(user) {
            s.pairs.remove_keys(s.expired[user].to_set())
        } else {
            s.pairs
        },
        expired: s.expired.remove(user),
    }
}

pub open spec fn holds(list: Seq<String>, key: Seq<char>) -> bool {
    strings_view(list).contains(key)
}

fn contains_str(list: &Vec<String>, key: &str) -> (r: bool)
    ensures
        r == holds(list@, key@),
{
    let mut k: usize = 0;
    while k < list.len()
        invariant
            k <= list@.len(),
            forall|q: int| 0 <= q < k ==> list@[q]@ != key@,
        decreases list@.len() - k,
    {
        if crate::text::str_eq(list[k].as_str(), key) {
            assert(strings_view(list@)[k as int] == key@);
            return true;
        }
        k = k + 1;
    }
    assert(!strings_view(list@).contains(key@)) by {
        if strings_view(list@).contains(key@) {
            let q = choose|q: int| 0 <= q < strings_view(list@).len() && strings_view(list@)[q] == key@;
            assert(list@[q]@ == key@);
        }
    }
    false
}

/// Issued pairs and exchanged refresh tokens.
pub struct TokenStore {
    pairs: StringMap<String>,
    expired: StringMap<Vec<String>>,
}

impl View for TokenStore {
    type V = TokenStoreView;

    closed spec fn view(&self) -> TokenStoreView {
        TokenStoreView {
            pairs: self.pairs@,
            expired: Map::new(
                |u: Seq<char>| self.expired@.contains_key(u),
                |u: Seq<char>| strings_view(self.expired@[u]),
            ),
        }
    }
}

impl TokenStore {
    pub closed spec fn wf(&self) -> bool {
        self.pairs.wf() && self.expired.wf()
    }

    /// No pairs and no exchanged tokens.
    pub fn new() -> (r: Self)
        ensures
            r.wf(),
            r@.pairs == Map::<Seq<char>, Seq<char>>::empty(),
            r@.expired == Map::<Seq<char>, Seq<Seq<char>>>::empty(),
    {
        let r = TokenStore { pairs: StringMap::new(), expired: StringMap::new() };
        assert(r@.expired =~= Map::<Seq<char>, Seq<Seq<char>>>::empty());
        r
    }

    /// Records a newly issued pair.
    pub fn record_pair(&mut self, refresh: String, access: String)
        requires
            old(self).wf(),
        ensures
            final(self).wf(),
            final(self)@ == (TokenStoreView { pairs: old(self)@.pairs.insert(refresh@, access@), ..old(self)@ }),
    {
        let ghost e = self@.expired;
        self.pairs.insert(refresh, access);
        assert(self@.expired =~= e);
    }

    /// Whether `key` is the refresh token of a live pair.
    pub fn has_pair(&self, key: &str) -> (r: bool)
        requires
            self.wf(),
        ensures
            r == self@.pairs.contains_key(key@),
    {
        self.pairs.get(key).is_some()
    }

    /// The access token issued with the refresh token `key`.
    pub fn access_of(&self, key: &str) -> (r: Option<String>)
        requires
            self.wf(),
        ensures
            r matches Some(a) ==> self@.pairs.contains_key(key@) && a@ == self@.pairs[key@],
            r is None ==> !self@.pairs.contains_key(key@),
    {
        match self.pairs.get(key) {
            Some(a) => Some(a.clone()),
            None => None,
        }
    }

    /// Drops the pair of the refresh token `key`.
    pub fn drop_pair(&mut self, key: &str)
        requires
            old(self).wf(),
        ensures
            final(self).wf(),
            final(self)@ == (TokenStoreView { pairs: old(self)@.pairs.remove(key@), ..old(self)@ }),
    {
        let ghost e = self@.expired;
        self.pairs.remove(key);
        assert(self@.expired =~= e);
    }

    /// Position of the first user whose exchanged tokens include `key`.
    fn first_holder(&self, key: &str) -> (r: Option<usize>)
        requires
            self.wf(),
        ensures
            r matches Some(h) ==> h < self.expired.entries().len() && holds(self.expired.entries()[h as int].1@, key@),
            r is None ==> forall|j: int| 0 <= j < self.expired.entries().len() ==> !holds(#[trigger] self.expired.entries()[j].1@, key@),
    {
        let n = self.expired.len();
        let mut i: usize = 0;
        while i < n
            invariant
                self.wf(),
                n == self.expired.entries().len(),
                i <= n,
                forall|j: int| 0 <= j < i ==> !holds(#[trigger] self.expired.entries()[j].1@, key@),
            decreases n - i,
        {
            if contains_str(self.expired.value_at(i), key) {
                return Some(i);
            }
            i = i + 1;
        }
        None
    }

    /// Handles a refresh token that failed validation.
    pub fn reject(&mut self, key: &str)
        requires
            old(self).wf(),
        ensures
            final(self).wf(),
            rejected(old(self)@, key@, final(self)@),
    {
        let ghost s0 = self@;
        self.drop_pair(key);
        let holder = self.first_holder(key);
        proof { self.expired.lemma_keys(); }
        match holder {
            Some(h) => {
                let user = self.expired.key_at(h);
                proof { self.expired.lemma_value_at(h as int); }
                let ghost s1 = self@;
                self.expired.remove(user.as_str());
                proof {
                    assert(s1.expired.contains_key(user@));
                    assert(s1.expired[user@].contains(key@));
                    assert(self@.expired =~= s1.expired.remove(user@));
                }
            },
            None => {
                proof {
                    assert forall|u: Seq<char>| #[trigger] s0.expired.contains_key(u) implies !s0.expired[u].contains(key@) by {
                        assert(self.expired.keys().to_set().contains(u));
                        let j = choose|j: int| 0 <= j < self.expired.keys().len() && self.expired.keys()[j] == u;
                        self.expired.lemma_value_at(j);
                        assert(!holds(self.expired.entries()[j].1@, key@));
                    }
                }
            },
        }
    }

    /// Records `key` as exchanged by `user`.
    pub fn retire(&mut self, key: String, user: &str)
        requires
            old(self).wf(),
        ensures
            final(self).wf(),
            final(self)@ == retired(old(self)@, key@, user@),
    {
        let ghost s0 = self@;
        let ghost kv = key@;
        let mut list: Vec<String> = match self.expired.get(user) {
            Some(l) => crate::registry::clone_strings(l),
            None => Vec::new(),
        };
        let ghost before = strings_view(list@);
        list.push(key);
        assert(strings_view(list@) =~= before.push(kv));
        let u = user.to_owned();
        self.expired.insert(u, list);
        proof {
            if s0.expired.contains_key(user@) {
                assert(before =~= s0.expired[user@]);
            } else {
                assert(before =~= Seq::<Seq<char>>::empty());
                assert(before.push(kv) =~= seq![kv]);
            }
            assert(self@.expired =~= retired(s0, kv, user@).expired);
        }
    }

    /// Handles the reuse of an exchanged refresh token of `user`.
    pub fn wipe_user(&mut self, user: &str)
        requires
            old(self).wf(),
        ensures
            final(self).wf(),
            final(self)@ == wiped(old(self)@, user@),
    {
        let ghost s0 = self@;
        match self.expired.get(user) {
            Some(l) => {
                let list = crate::registry::clone_strings(l);
                let ghost lv = strings_view(list@);
                assert(lv == s0.expired[user@]);
                let mut k: usize = 0;
                while k < list.len()
                    invariant
                        self.wf(),
                        lv == strings_view(list@),
                        k <= list@.len(),
                        self@.expired == s0.expired,
                        self@.pairs == s0.pairs.remove_keys(lv.take(k as int).to_set()),
                    decreases list@.len() - k,
                {
                    let ghost p = self@.pairs;
                    self.drop_pair(list[k].as_str());
                    proof {
                        assert forall|x: Seq<char>| lv.take(k + 1).to_set().contains(x) <==> lv.take(k as int).to_set().insert(lv[k as int]).contains(x) by {
                            if lv.take(k + 1).contains(x) {
                                let t1 = lv.take(k + 1);
                                let q = choose|q: int| 0 <= q < t1.len() && #[trigger] t1[q] == x;
                                if q < k {
                                    assert(lv.take(k as int)[q] == x);
                                }
                            }
                            if lv.take(k as int).contains(x) {
                                let t0 = lv.take(k as int);
                                let q = choose|q: int| 0 <= q < t0.len() && #[trigger] t0[q] == x;
                                assert(lv.take(k + 1)[q] == x);
                            }
                            if x == lv[k as int] {
                                assert(lv.take(k + 1)[k as int] == x);
                            }
                        }
                        assert(lv.take(k + 1).to_set() =~= lv.take(k as int).to_set().insert(lv[k as int]));
                        assert(self@.pairs =~= s0.pairs.remove_keys(lv.take(k + 1).to_set()));
                    }
                    k = k + 1;
                }
                assert(lv.take(lv.len() as int) =~= lv);
            },
            None => {},
        }
        let ghost s1 = self@;
        self.expired.remove(user);
        assert(self@.expired =~= s1.expired.remove(user@));
    }
}

} // verus!
