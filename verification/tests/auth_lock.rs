use tack::auth::{
    authorized, check_password, ct_eq, hash_live_password, load_auth_from, password_hash_with_salt,
    pbkdf2_sha256, session_cookie, LiveAuth, SettingRead,
};

fn hex(b: &[u8]) -> String {
    b.iter().map(|x| format!("{:02x}", x)).collect()
}

#[test]
fn pbkdf2_matches_the_published_vectors() {
    assert_eq!(
        hex(&pbkdf2_sha256(b"password", b"salt", 1)),
        "120fb6cffcf8b32c43e7225256c4f837a86548c92ccc35480805987cb70be17b"
    );
    assert_eq!(
        hex(&pbkdf2_sha256(b"password", b"salt", 2)),
        "ae4d0c95af6b46d32d0adff928f06dd02a303f8ef3c251dfd6e2d85a95474c43"
    );
    assert_eq!(
        hex(&pbkdf2_sha256(b"password", b"salt", 4096)),
        "c5e478d59288c841aa530db6845c4c8d962893a001ce4e11a4963873aa98134a"
    );
    // zero iterations count as one
    assert_eq!(pbkdf2_sha256(b"password", b"salt", 0), pbkdf2_sha256(b"password", b"salt", 1));
}

#[test]
fn pbkdf2_hashes_long_keys_first() {
    let long = [b'k'; 100];
    let d = pbkdf2_sha256(&long, b"salt", 1);
    assert_eq!(d.len(), 32);
    assert_ne!(d, pbkdf2_sha256(&long[..64], b"salt", 1));
}

#[test]
fn constant_time_compare() {
    assert!(ct_eq(b"abc", b"abc"));
    assert!(!ct_eq(b"abc", b"abd"));
    assert!(!ct_eq(b"abc", b"ab"));
    assert!(ct_eq(b"", b""));
}

#[test]
fn password_length_is_checked() {
    assert_eq!(
        password_hash_with_salt("short", b"salt").err().unwrap(),
        "password must be 8-128 characters"
    );
    let long = "x".repeat(129);
    assert!(password_hash_with_salt(&long, b"salt").is_err());
    assert!(password_hash_with_salt(&"x".repeat(128), b"salt").is_ok());
    assert!(hash_live_password("seven77".to_string()).is_err());
}

#[test]
fn stored_hash_is_base64_of_the_digest() {
    let h = password_hash_with_salt("password", b"salt").ok().unwrap();
    assert_eq!(h.salt, "c2FsdA==");
    assert_eq!(h.hash.len(), 44);
    assert!(h.hash.ends_with('='));
}

#[test]
fn stored_password_opens_the_lock() {
    let h = password_hash_with_salt("correct horse", b"0123456789abcdef").ok().unwrap();
    let auth = load_auth_from(SettingRead::Value(h.hash.clone()), SettingRead::Value(h.salt.clone())).unwrap();
    assert_eq!(auth.salt, b"0123456789abcdef".to_vec());
    assert_eq!(auth.hash.len(), 32);
    assert!(check_password(&auth, "correct horse"));
    assert!(!check_password(&auth, "correct horsE"));
    // the token is derived from the stored hash: loading again gives the same one
    let again = load_auth_from(SettingRead::Value(h.hash.clone()), SettingRead::Value(h.salt)).unwrap();
    assert_eq!(auth.token, again.token);
    assert!(!auth.token.is_empty());
}

#[test]
fn random_salts_differ() {
    let a = hash_live_password("correct horse".to_string()).ok().unwrap();
    let b = hash_live_password("correct horse".to_string()).ok().unwrap();
    assert_ne!(a.salt, b.salt);
    assert_eq!(a.salt.len(), 24);
    let auth = load_auth_from(SettingRead::Value(a.hash), SettingRead::Value(a.salt)).unwrap();
    assert!(check_password(&auth, "correct horse"));
}

#[test]
fn missing_or_cleared_password_means_no_lock() {
    assert!(load_auth_from(SettingRead::Missing, SettingRead::Missing).is_none());
    assert!(load_auth_from(SettingRead::Value(String::new()), SettingRead::Value("c2FsdA==".into())).is_none());
    assert!(load_auth_from(SettingRead::Value("abc".into()), SettingRead::Value(String::new())).is_none());
}

#[test]
fn broken_configuration_locks_the_share() {
    let locked = |a: Option<LiveAuth>| {
        let a = a.unwrap();
        assert!(a.salt.is_empty());
        assert_eq!(a.hash, vec![0u8; 32]);
        assert!(!check_password(&a, "anything at all"));
        assert_eq!(a.token.len(), 36);
        assert!(a.token.chars().all(|c| c.is_ascii_hexdigit() && !c.is_ascii_uppercase() || c == '-'));
        let empty_cookie = vec![("Cookie".to_string(), "tack_live=".to_string())];
        assert!(!authorized(&empty_cookie, "", &a));
        assert!(!authorized(&[], "token=", &a));
        let bearer = vec![("Authorization".to_string(), "Bearer ".to_string())];
        assert!(!authorized(&bearer, "", &a));
    };
    locked(load_auth_from(SettingRead::Failed, SettingRead::Missing));
    locked(load_auth_from(SettingRead::Value("abc".into()), SettingRead::Failed));
    locked(load_auth_from(SettingRead::Value("abc".into()), SettingRead::Missing));
    locked(load_auth_from(SettingRead::Value("!!!!".into()), SettingRead::Value("c2FsdA==".into())));
    // a hash that is not 32 bytes
    locked(load_auth_from(SettingRead::Value("c2FsdA==".into()), SettingRead::Value("c2FsdA==".into())));
}

#[test]
fn session_cookie_text() {
    assert_eq!(
        session_cookie("abc"),
        "tack_live=abc; Path=/; HttpOnly; SameSite=Lax; Max-Age=604800"
    );
}

fn auth_with_token(token: &str) -> LiveAuth {
    LiveAuth { salt: vec![1], hash: vec![0; 32], token: token.to_string() }
}

#[test]
fn requests_carry_the_token() {
    let auth = auth_with_token("tok123");
    let h = |n: &str, v: &str| vec![(n.to_string(), v.to_string())];
    assert!(authorized(&h("Cookie", "theme=dark; tack_live=tok123"), "", &auth));
    assert!(authorized(&h("cookie", "tack_live=tok123"), "", &auth));
    assert!(!authorized(&h("Cookie", "tack_live=tok12"), "", &auth));
    assert!(authorized(&h("Authorization", "Bearer tok123"), "", &auth));
    assert!(authorized(&h("AUTHORIZATION", "Bearer  tok123 "), "", &auth));
    assert!(!authorized(&h("Authorization", "bearer tok123"), "", &auth));
    assert!(authorized(&[], "a=1&token=tok123&b=2", &auth));
    assert!(!authorized(&[], "token=&b=2", &auth));
    assert!(!authorized(&[], "", &auth));
    assert!(!authorized(&h("X-Token", "tok123"), "", &auth));
}

#[test]
fn issued_cookie_lets_the_browser_back_in() {
    let h = password_hash_with_salt("correct horse", b"salt-bytes").ok().unwrap();
    let auth = load_auth_from(SettingRead::Value(h.hash), SettingRead::Value(h.salt)).unwrap();
    let cookie = session_cookie(&auth.token);
    let pair = cookie.split(';').next().unwrap().to_string();
    assert!(authorized(&[("Cookie".to_string(), pair)], "", &auth));
    let bearer = format!("Bearer {}", auth.token);
    assert!(authorized(&[("Authorization".to_string(), bearer)], "", &auth));
}
