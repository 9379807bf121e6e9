use metro_services::gateway::{authentificate, get_claims, is_autentificated, update_tokens, Crendentials, UpdateTokens};
use metro_services::jwt::{GatewayError, JWT};

#[test]
fn gen_key() {
    let mut key = JWT::new().unwrap();
    let id = "1234".to_owned();
    let pairs = key.get_pair(&id).ok().unwrap();
    let upd = key.update_keys(&pairs.0).ok().unwrap();
    let va = key.validate_access(&upd.1).ok().unwrap();
    assert_eq!(va.user_id(), "1234");
    let vr = key.validate_refresh(&upd.0).ok().unwrap();
    assert_eq!(vr.user_id(), "1234");
    let upd2 = key.update_keys(&pairs.0);
    match upd2.err().unwrap() {
        GatewayError::JWTRefreshError(m) => assert_eq!(
            m,
            "для юзера 1234 рефреш токен уже обновлялся, все данные сброшены, вам необходимо заново залогиниться в систему"
        ),
        _ => panic!("a reused refresh token is reported as such"),
    }
}

#[test]
fn tokens_are_checked_by_subject() {
    let mut key = JWT::new().unwrap();
    let (refresh, access) = key.get_pair("u1").ok().unwrap();
    assert!(key.validate_access(&access).is_ok());
    assert!(key.validate_refresh(&refresh).is_ok());
    assert!(key.validate_access(&refresh).is_err());
    assert!(key.validate_refresh(&access).is_err());
    assert!(key.validate_access("not.a.token").is_err());
}

#[test]
fn tokens_of_another_key_are_refused() {
    let mut one = JWT::new().unwrap();
    let other = JWT::new().unwrap();
    let (refresh, access) = one.get_pair("u1").ok().unwrap();
    assert!(other.validate_access(&access).is_err());
    assert!(other.validate_refresh(&refresh).is_err());
}

#[test]
fn invalid_refresh_token_is_a_jwt_error() {
    let mut key = JWT::new().unwrap();
    match key.update_keys("garbage").err().unwrap() {
        GatewayError::JWTError(_) => {},
        _ => panic!("an undecodable token is a token error"),
    }
}

#[test]
fn authentication_issues_a_usable_pair() {
    let mut key = JWT::new().unwrap();
    let creds = Crendentials { login: "operator1".to_owned(), password: "secret".to_owned() };
    let auth = authentificate(&mut key, &creds).ok().unwrap();
    assert_eq!(auth.user_id, "operator1");
    assert_eq!(auth.role, "Оператор");
    let header = format!("Bearer {}", auth.access_key);
    assert!(is_autentificated(&key, Some(header.as_str())));
    assert!(!is_autentificated(&key, None));
    let claims = get_claims(&key, Some(header.as_str())).unwrap();
    assert_eq!(claims.user_id(), "operator1");
    let req = UpdateTokens { access: auth.access_key.clone(), refresh: auth.refresh_key.clone() };
    let fresh = update_tokens(&mut key, &req).ok().unwrap();
    assert!(key.validate_refresh(&fresh.refresh).is_ok());
    assert!(key.validate_access(&fresh.access).is_ok());
    assert!(update_tokens(&mut key, &req).is_err());
}

fn claims_for(user: &str) -> metro_services::jwt::Claims {
    metro_services::jwt::Claims { sub: "refresh".to_owned(), exp: 0, iat: 0, id: user.to_owned() }
}

#[test]
fn exchange_follows_the_validation() {
    let mut key = JWT::new().unwrap();
    let (refresh, _) = key.get_pair("alice").ok().unwrap();
    // a live token is exchanged for a pair of the user the claims name
    let (r2, a2) = key.exchange_refresh(&refresh, Ok(claims_for("bob"))).ok().unwrap();
    assert_eq!(key.validate_access(&a2).ok().unwrap().user_id(), "bob");
    assert_eq!(key.validate_refresh(&r2).ok().unwrap().user_id(), "bob");
    // once exchanged, it is reported as reused for that user
    match key.exchange_refresh(&refresh, Ok(claims_for("bob"))).err().unwrap() {
        GatewayError::JWTRefreshError(m) => assert!(m.starts_with("для юзера bob ")),
        _ => panic!("a token exchanged before is reported as reused"),
    }
    // a token that failed validation is forgotten
    let (r3, _) = key.get_pair("carol").ok().unwrap();
    let failed: jsonwebtoken::errors::Error = jsonwebtoken::errors::ErrorKind::InvalidToken.into();
    assert!(matches!(key.exchange_refresh(&r3, Err(failed)), Err(GatewayError::JWTError(_))));
    match key.exchange_refresh(&r3, Ok(claims_for("carol"))).err().unwrap() {
        GatewayError::JWTRefreshError(m) => assert!(m.starts_with("для юзера carol ")),
        _ => panic!("a forgotten token is no longer live"),
    }
}

#[test]
fn public_key_text() {
    let key = JWT::new().unwrap();
    let text = key.get_public_key();
    // an Ed25519 public key has 32 bytes: 44 base64 digits with one pad
    assert_eq!(text.len(), 44);
    assert!(text.ends_with('='));
}

fn base64url_decode(s: &str) -> Vec<u8> {
    let alphabet = "ABCDEFGHIJKLMNOPQRSTUVWXYZabcdefghijklmnopqrstuvwxyz0123456789-_";
    let mut bits: u32 = 0;
    let mut n = 0;
    let mut out = Vec::new();
    for c in s.chars() {
        let v = alphabet.find(c).unwrap() as u32;
        bits = (bits << 6) | v;
        n += 6;
        if n >= 8 {
            n -= 8;
            out.push((bits >> n) as u8);
            bits &= (1 << n) - 1;
        }
    }
    out
}

#[test]
fn claims_are_written_in_field_order() {
    let key = JWT::new().unwrap();
    let token = key.new_access("u1").ok().unwrap();
    let payload = token.split('.').nth(1).unwrap();
    let text = String::from_utf8(base64url_decode(payload)).unwrap();
    let sub = text.find("\"sub\"").unwrap();
    let exp = text.find("\"exp\"").unwrap();
    let iat = text.find("\"iat\"").unwrap();
    let id = text.find("\"id\"").unwrap();
    assert!(sub < exp && exp < iat && iat < id);
    assert!(text.contains("\"sub\":\"access\""));
    assert!(text.contains("\"id\":\"u1\""));
}

#[test]
fn signing_key_from_a_document() {
    assert!(JWT::with_key(vec![1, 2, 3]).is_none());
    let rng = ring::rand::SystemRandom::new();
    let doc = ring::signature::Ed25519KeyPair::generate_pkcs8(&rng).unwrap();
    let mut key = JWT::with_key(doc.as_ref().to_vec()).unwrap();
    let (refresh, access) = key.get_pair("u7").ok().unwrap();
    assert_eq!(key.validate_access(&access).ok().unwrap().user_id(), "u7");
    assert!(key.validate_refresh(&refresh).is_ok());
    let other = JWT::new().unwrap();
    assert!(other.validate_access(&access).is_err());
}

#[test]
fn refresh_token_is_not_taken_for_access() {
    let mut key = JWT::new().unwrap();
    let (refresh, access) = key.get_pair("u8").ok().unwrap();
    let header = format!("Bearer {}", refresh);
    assert!(!is_autentificated(&key, Some(&header)));
    assert!(get_claims(&key, Some(&header)).is_none());
    let header = format!("Bearer {}", access);
    assert!(is_autentificated(&key, Some(&header)));
}
