//! Issuing and checking the gateway's EdDSA tokens, and exchanging a
//! refresh token for a new pair.
use vstd::prelude::*;
use vstd::string::*;
use ring::signature::KeyPair;
use crate::tokens::{TokenStore, TokenStoreView, rejected, rotated, rotation, wiped};

verus! {

#[verifier::external_type_specification]
#[verifier::external_body]
pub struct ExJwtError(jsonwebtoken::errors::Error);

/// The errors of the gateway's own logic.
pub enum GatewayError {
    /// A token failed to be issued or validated.
    JWTError(jsonwebtoken::errors::Error),
    /// A refresh token was presented a second time.
    JWTRefreshError(String),
    /// The target service could not be reached.
    SendError(String),
}

/// What `jsonwebtoken::encode` produces for an EdDSA header and the claims
/// `{sub, exp, iat, id}`, signed with the Ed25519 key in the PKCS#8 document
/// `pkcs8`; `None` when it fails.
pub uninterp spec fn eddsa_token(sub: Seq<char>, exp: int, iat: int, id: Seq<char>, pkcs8: Seq<u8>) -> Option<Seq<char>>;

/// The token issued at `iat` with the given lifetime.
pub open spec fn issued_token(sub: Seq<char>, lifetime: int, iat: int, id: Seq<char>, pkcs8: Seq<u8>) -> Option<Seq<char>> {
    eddsa_token(sub, iat + lifetime, iat, id, pkcs8)
}

/// The claims `(sub, exp, iat, id)` that `jsonwebtoken::decode` reads from
/// `token` when its EdDSA signature verifies under the Ed25519 public key
/// `key` and its payload holds a string `sub` and `id` and integer `exp`
/// and `iat`. Signature and payload depend on the token and the key alone;
/// the expiry check against the clock is not part of it.
pub uninterp spec fn eddsa_claims(token: Seq<char>, key: Seq<u8>) -> Option<(Seq<char>, int, int, Seq<char>)>;

/// Whether `token` verifies under `key` and names `user` with the subject
/// `sub`.
pub open spec fn names_user(token: Seq<char>, key: Seq<u8>, sub: Seq<char>, user: Seq<char>) -> bool {
    eddsa_claims(token, key) matches Some((s, _, _, id)) && s == sub && id == user
}

/// The public key of the Ed25519 key pair in the PKCS#8 document `pkcs8`,
/// as `ring` reads it; `None` when `ring` rejects the document.
pub uninterp spec fn ed25519_public_key_of(pkcs8: Seq<u8>) -> Option<Seq<u8>>;

/// A fresh Ed25519 key pair as a PKCS#8 document, from
/// `ring::signature::Ed25519KeyPair::generate_pkcs8` with the system random
/// generator; `None` when the generator fails. The document is random; what
/// holds of every one is that it is a PKCS#8 v2 document holding the seed and
/// the public key derived from it, which `from_pkcs8` accepts.
#[verifier::external_body]
fn ed25519_generate_pkcs8() -> (r: Option<Vec<u8>>)
    ensures
        r matches Some(d) ==> ed25519_public_key_of(d@) is Some,
{
    let rng = ring::rand::SystemRandom::new();
    ring::signature::Ed25519KeyPair::generate_pkcs8(&rng).ok().map(|d| d.as_ref().to_vec())
}

/// The public key of the PKCS#8 document, from
/// `ring::signature::Ed25519KeyPair::from_pkcs8` and `public_key`; a
/// function of the document alone.
#[verifier::external_body]
fn ed25519_public_key(pkcs8: &[u8]) -> (r: Option<Vec<u8>>)
    ensures
        match r {
            Some(k) => ed25519_public_key_of(pkcs8@) == Some(k@),
            None => ed25519_public_key_of(pkcs8@) is None,
        },
{
    ring::signature::Ed25519KeyPair::from_pkcs8(pkcs8).ok().map(|p| p.public_key().as_ref().to_vec())
}

/// The current time as a Unix timestamp, from
/// `time::OffsetDateTime::now_utc().unix_timestamp()`. It depends on the
/// clock; what holds of every outcome is that `time` keeps its years within
/// ±999 999, so the timestamp is far from the ends of `i64`.
#[verifier::external_body]
pub(crate) fn unix_now() -> (r: i64)
    ensures
        -100_000_000_000_000 <= r <= 100_000_000_000_000,
{
    time::OffsetDateTime::now_utc().unix_timestamp()
}

/// `jsonwebtoken::encode` with an EdDSA header, the claims object
/// `{sub, exp, iat, id}` and `EncodingKey::from_ed_der(pkcs8)`; the result is
/// a function of these arguments alone (Ed25519 signatures are
/// deterministic), named `eddsa_token`. Encoding fails only where signing
/// does: the key family matches the header, the header and claims always
/// serialize, and the signing key is read with
/// `Ed25519KeyPair::from_pkcs8_maybe_unchecked`, which accepts every
/// document that `from_pkcs8` accepts. The token is the signed header and
/// claims object, so decoding it under the public key of `pkcs8` reads these
/// claims back.
#[verifier::external_body]
fn encode_eddsa(sub: &str, exp: i64, iat: i64, id: &str, pkcs8: &[u8]) -> (r: Result<String, jsonwebtoken::errors::Error>)
    ensures
        match r {
            Ok(t) => eddsa_token(sub@, exp as int, iat as int, id@, pkcs8@) == Some(t@),
            Err(_) => eddsa_token(sub@, exp as int, iat as int, id@, pkcs8@) is None,
        },
        ed25519_public_key_of(pkcs8@) is Some ==> r is Ok,
        r matches Ok(t) ==> (ed25519_public_key_of(pkcs8@) matches Some(pk)
            ==> eddsa_claims(t@, pk) == Some((sub@, exp as int, iat as int, id@))),
{
    let mut claims = serde_json::Map::new();
    claims.insert("sub".to_owned(), serde_json::Value::from(sub));
    claims.insert("exp".to_owned(), serde_json::Value::from(exp));
    claims.insert("iat".to_owned(), serde_json::Value::from(iat));
    claims.insert("id".to_owned(), serde_json::Value::from(id));
    let header = jsonwebtoken::Header::new(jsonwebtoken::Algorithm::EdDSA);
    jsonwebtoken::encode(&header, &claims, &jsonwebtoken::EncodingKey::from_ed_der(pkcs8))
}

/// `jsonwebtoken::decode` of an EdDSA token against
/// `DecodingKey::from_ed_der(public_key)`, with `Validation::new(EdDSA)`
/// whose `sub` is set to `sub`. A token passes when its signature verifies
/// under the key, its claims are read (named `eddsa_claims`), the subject
/// is `sub`, and it has not expired by the clock; that last check is not
/// stated, so a failure is not stated either. The claims object is read
/// field by field; one that lacks `sub`, `exp`, `iat` or `id` is refused as
/// an invalid token.
#[verifier::external_body]
fn decode_eddsa(token: &str, public_key: &[u8], sub: &str) -> (r: Result<Claims, jsonwebtoken::errors::Error>)
    ensures
        r matches Ok(c) ==> c.sub@ == sub@
            && eddsa_claims(token@, public_key@) == Some((c.sub@, c.exp as int, c.iat as int, c.id@)),
{
    let mut validation = jsonwebtoken::Validation::new(jsonwebtoken::Algorithm::EdDSA);
    validation.sub = Some(sub.to_owned());
    let key = jsonwebtoken::DecodingKey::from_ed_der(public_key);
    let c = jsonwebtoken::decode::<serde_json::Value>(token, &key, &validation)?.claims;
    match (c["sub"].as_str(), c["exp"].as_i64(), c["iat"].as_i64(), c["id"].as_str()) {
        (Some(s), Some(e), Some(i), Some(d)) => Ok(Claims { sub: s.to_owned(), exp: e, iat: i, id: d.to_owned() }),
        _ => Err(jsonwebtoken::errors::ErrorKind::InvalidToken.into()),
    }
}

/// The claims of a gateway token.
pub struct Claims {
    pub sub: String,
    pub exp: i64,
    pub iat: i64,
    pub id: String,
}

impl Claims {
    pub fn user_id(&self) -> (r: &str)
        ensures
            r@ == self.id@,
    {
        self.id.as_str()
    }
}

/// Lifetime of an access token, in seconds.
pub const ACCESS_LIFETIME: i64 = 300;
/// Lifetime of a refresh token, in seconds.
pub const REFRESH_LIFETIME: i64 = 43200;

/// The message given when a refresh token is presented again.
pub open spec fn refresh_reuse_message(user: Seq<char>) -> Seq<char> {
    "для юзера "@ + user + " рефреш токен уже обновлялся, все данные сброшены, вам необходимо заново залогиниться в систему"@
}

/// The gateway's signing key and its token bookkeeping.
pub struct JWT {
    pkcs8: Vec<u8>,
    public_key: Vec<u8>,
    store: TokenStore,
}

impl JWT {
    pub closed spec fn wf(&self) -> bool {
        &&& self.store.wf()
        &&& ed25519_public_key_of(self.pkcs8@) == Some(self.public_key@)
    }

    /// The PKCS#8 document of the signing key.
    pub closed spec fn signing_key(&self) -> Seq<u8> {
        self.pkcs8@
    }

    /// The public half of the signing key.
    pub closed spec fn verifying_key(&self) -> Seq<u8> {
        self.public_key@
    }

    /// The token bookkeeping.
    pub closed spec fn tokens(&self) -> TokenStoreView {
        self.store@
    }

    /// A fresh random key pair and empty bookkeeping; `None` when the
    /// system random generator fails.
    pub fn new() -> (r: Option<Self>)
        ensures
            r matches Some(j) ==> j.wf() && ed25519_public_key_of(j.signing_key()) == Some(j.verifying_key())
                && j.tokens().pairs.is_empty() && j.tokens().expired.is_empty(),
    {
        match ed25519_generate_pkcs8() {
            Some(doc) => {
                let r = Self::with_key(doc);
                assert(r is Some);
                r
            },
            None => None,
        }
    }

    /// The signing key of the PKCS#8 document `pkcs8` and empty bookkeeping;
    /// `None` exactly when `ring` rejects the document.
    pub fn with_key(pkcs8: Vec<u8>) -> (r: Option<Self>)
        ensures
            r is Some <==> ed25519_public_key_of(pkcs8@) is Some,
            r matches Some(j) ==> j.wf() && j.signing_key() == pkcs8@
                && ed25519_public_key_of(pkcs8@) == Some(j.verifying_key())
                && j.tokens().pairs.is_empty() && j.tokens().expired.is_empty(),
    {
        let pk = match ed25519_public_key(pkcs8.as_slice()) {
            Some(k) => k,
            None => return None,
        };
        let store = TokenStore::new();
        assert(store@.pairs.dom() =~= Set::empty());
        assert(store@.expired.dom() =~= Set::empty());
        Some(JWT { pkcs8, public_key: pk, store })
    }

    /// The public key, in standard base64.
    pub fn get_public_key(&self) -> (r: String)
        ensures
            r@ == crate::text::base64(self.verifying_key()),
    {
        crate::text::to_base64(self.public_key.as_slice())
    }

    /// An access token for `user_id`, valid five minutes from now.
    pub fn new_access(&self, user_id: &str) -> (r: Result<String, GatewayError>)
        ensures
            r matches Ok(t) ==> exists|iat: int| #[trigger] issued_token("access"@, ACCESS_LIFETIME as int, iat, user_id@, self.signing_key()) == Some(t@),
            r matches Ok(t) ==> (ed25519_public_key_of(self.signing_key()) matches Some(pk) ==> names_user(t@, pk, "access"@, user_id@)),
            r matches Err(e) ==> e is JWTError,
            ed25519_public_key_of(self.signing_key()) is Some ==> r is Ok,
    {
        let iat = unix_now();
        let exp = iat + ACCESS_LIFETIME;
        match encode_eddsa("access", exp, iat, user_id, self.pkcs8.as_slice()) {
            Ok(t) => {
                assert(issued_token("access"@, ACCESS_LIFETIME as int, iat as int, user_id@, self.signing_key()) == Some(t@));
                Ok(t)
            },
            Err(e) => Err(GatewayError::JWTError(e)),
        }
    }

    /// A refresh token for `user_id`, valid twelve hours from now.
    pub fn new_refresh(&self, user_id: &str) -> (r: Result<String, GatewayError>)
        ensures
            r matches Ok(t) ==> exists|iat: int| #[trigger] issued_token("refresh"@, REFRESH_LIFETIME as int, iat, user_id@, self.signing_key()) == Some(t@),
            r matches Ok(t) ==> (ed25519_public_key_of(self.signing_key()) matches Some(pk) ==> names_user(t@, pk, "refresh"@, user_id@)),
            r matches Err(e) ==> e is JWTError,
            ed25519_public_key_of(self.signing_key()) is Some ==> r is Ok,
    {
        let iat = unix_now();
        let exp = iat + REFRESH_LIFETIME;
        match encode_eddsa("refresh", exp, iat, user_id, self.pkcs8.as_slice()) {
            Ok(t) => {
                assert(issued_token("refresh"@, REFRESH_LIFETIME as int, iat as int, user_id@, self.signing_key()) == Some(t@));
                Ok(t)
            },
            Err(e) => Err(GatewayError::JWTError(e)),
        }
    }

    /// A new (refresh, access) pair for `user_id`, recorded as live.
    pub fn get_pair(&mut self, user_id: &str) -> (r: Result<(String, String), GatewayError>)
        requires
            old(self).wf(),
        ensures
            final(self).wf(),
            final(self).signing_key() == old(self).signing_key(),
            final(self).verifying_key() == old(self).verifying_key(),
            r matches Ok(p) ==> final(self).tokens() == (TokenStoreView {
                pairs: old(self).tokens().pairs.insert(p.0@, p.1@),
                ..old(self).tokens()
            }),
            r matches Ok(p) ==> (exists|iat: int| #[trigger] issued_token("refresh"@, REFRESH_LIFETIME as int, iat, user_id@, old(self).signing_key()) == Some(p.0@))
                && (exists|iat: int| #[trigger] issued_token("access"@, ACCESS_LIFETIME as int, iat, user_id@, old(self).signing_key()) == Some(p.1@)),
            r matches Ok(p) ==> names_user(p.0@, old(self).verifying_key(), "refresh"@, user_id@)
                && names_user(p.1@, old(self).verifying_key(), "access"@, user_id@),
            r is Ok,
    {
        let access = match self.new_access(user_id) {
            Ok(a) => a,
            Err(e) => return Err(e),
        };
        let refresh = match self.new_refresh(user_id) {
            Ok(t) => t,
            Err(e) => return Err(e),
        };
        let r2 = refresh.clone();
        let a2 = access.clone();
        self.store.record_pair(r2, a2);
        Ok((refresh, access))
    }

    /// Checks a refresh token: its signature under the verifying key, its
    /// subject `refresh`, and its expiry.
    pub fn validate_refresh(&self, token: &str) -> (r: Result<Claims, jsonwebtoken::errors::Error>)
        ensures
            r matches Ok(c) ==> c.sub@ == "refresh"@
                && eddsa_claims(token@, self.verifying_key()) == Some((c.sub@, c.exp as int, c.iat as int, c.id@)),
    {
        decode_eddsa(token, self.public_key.as_slice(), "refresh")
    }

    /// Checks an access token: its signature under the verifying key, its
    /// subject `access`, and its expiry.
    pub fn validate_access(&self, token: &str) -> (r: Result<Claims, jsonwebtoken::errors::Error>)
        ensures
            r matches Ok(c) ==> c.sub@ == "access"@
                && eddsa_claims(token@, self.verifying_key()) == Some((c.sub@, c.exp as int, c.iat as int, c.id@)),
    {
        decode_eddsa(token, self.public_key.as_slice(), "access")
    }

    /// The exchange of the refresh token `refresh_key`, given the outcome
    /// of its validation: a token that failed is forgotten; a live token is
    /// retired and replaced by a new pair for the user it names; a valid
    /// token that is no longer live was exchanged before, and every pair of
    /// that user's exchanged tokens is revoked.
    pub fn exchange_refresh(
        &mut self,
        refresh_key: &str,
        validated: Result<Claims, jsonwebtoken::errors::Error>,
    ) -> (r: Result<(String, String), GatewayError>)
        requires
            old(self).wf(),
        ensures
            final(self).wf(),
            final(self).signing_key() == old(self).signing_key(),
            final(self).verifying_key() == old(self).verifying_key(),
            match validated {
                Err(e) => (r matches Err(GatewayError::JWTError(e2)) && e2 == e)
                    && rejected(old(self).tokens(), refresh_key@, final(self).tokens()),
                Ok(c) => if old(self).tokens().pairs.contains_key(refresh_key@) {
                    r matches Ok(p) && final(self).tokens() == rotated(old(self).tokens(), refresh_key@, c.id@, p.0@, p.1@)
                        && (exists|iat: int| #[trigger] issued_token("refresh"@, REFRESH_LIFETIME as int, iat, c.id@, old(self).signing_key()) == Some(p.0@))
                        && (exists|iat: int| #[trigger] issued_token("access"@, ACCESS_LIFETIME as int, iat, c.id@, old(self).signing_key()) == Some(p.1@))
                        && names_user(p.0@, old(self).verifying_key(), "refresh"@, c.id@)
                        && names_user(p.1@, old(self).verifying_key(), "access"@, c.id@)
                } else {
                    (r matches Err(GatewayError::JWTRefreshError(m)) && m@ == refresh_reuse_message(c.id@))
                        && final(self).tokens() == wiped(old(self).tokens(), c.id@)
                },
            },
    {
        match validated {
            Err(e) => {
                self.store.reject(refresh_key);
                Err(GatewayError::JWTError(e))
            },
            Ok(claims) => {
                let id = claims.id;
                if self.store.has_pair(refresh_key) {
                    self.store.retire(refresh_key.to_owned(), id.as_str());
                    let pair = match self.get_pair(id.as_str()) {
                        Ok(p) => p,
                        Err(e) => return Err(e),
                    };
                    self.store.drop_pair(refresh_key);
                    assert(self.store@ == rotated(old(self).store@, refresh_key@, id@, pair.0@, pair.1@));
                    Ok(pair)
                } else {
                    self.store.wipe_user(id.as_str());
                    let mut m = String::from_str("для юзера ");
                    m.append(id.as_str());
                    m.append(" рефреш токен уже обновлялся, все данные сброшены, вам необходимо заново залогиниться в систему");
                    assert(m@ == refresh_reuse_message(id@));
                    Err(GatewayError::JWTRefreshError(m))
                }
            },
        }
    }

    /// Exchanges a live refresh token for a new pair. A token that fails
    /// validation is forgotten; a valid token that is no longer live means it
    /// was exchanged before, and every pair of its user is revoked.
    pub fn update_keys(&mut self, refresh_key: &str) -> (r: Result<(String, String), GatewayError>)
        requires
            old(self).wf(),
        ensures
            final(self).wf(),
            final(self).signing_key() == old(self).signing_key(),
            final(self).verifying_key() == old(self).verifying_key(),
            r matches Ok(p) ==> old(self).tokens().pairs.contains_key(refresh_key@)
                && rotation(old(self).tokens(), refresh_key@, p.0@, p.1@, final(self).tokens())
                && exists|user: Seq<char>| #[trigger] names_user(refresh_key@, old(self).verifying_key(), "refresh"@, user)
                    && final(self).tokens() == rotated(old(self).tokens(), refresh_key@, user, p.0@, p.1@)
                    && (exists|iat: int| #[trigger] issued_token("refresh"@, REFRESH_LIFETIME as int, iat, user, old(self).signing_key()) == Some(p.0@))
                    && (exists|iat: int| #[trigger] issued_token("access"@, ACCESS_LIFETIME as int, iat, user, old(self).signing_key()) == Some(p.1@))
                    && names_user(p.0@, old(self).verifying_key(), "refresh"@, user)
                    && names_user(p.1@, old(self).verifying_key(), "access"@, user),
            r matches Err(GatewayError::JWTRefreshError(m)) ==> !old(self).tokens().pairs.contains_key(refresh_key@)
                && exists|user: Seq<char>| #[trigger] names_user(refresh_key@, old(self).verifying_key(), "refresh"@, user)
                    && m@ == refresh_reuse_message(user)
                    && final(self).tokens() == wiped(old(self).tokens(), user),
            r matches Err(GatewayError::JWTError(_)) ==> rejected(old(self).tokens(), refresh_key@, final(self).tokens()),
            !(r matches Err(GatewayError::SendError(_))),
            old(self).tokens().pairs.contains_key(refresh_key@) ==> !(r matches Err(GatewayError::JWTRefreshError(_))),
            !old(self).tokens().pairs.contains_key(refresh_key@) ==> !(r is Ok),
    {
        let validated = self.validate_refresh(refresh_key);
        let ghost v = validated;
        let r = self.exchange_refresh(refresh_key, validated);
        let ghost rv = r;
        proof {
            if let Ok(c) = v {
                assert(names_user(refresh_key@, old(self).verifying_key(), "refresh"@, c.id@));
                if let Ok(p) = rv {
                    assert(rotated(old(self).tokens(), refresh_key@, c.id@, p.0@, p.1@) == self.tokens());
                }
            }
        }
        r
    }
}

} // verus!
