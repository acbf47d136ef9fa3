use khronos::auth::{issuer, token_from_header, AdminAuth, AuthLevel, Claims, UserAuth, MAX_TIMESTAMP, TOKEN_DURATION};
use khronos::error::Error;

#[test]
fn claims_expire_after_thirty_one_days() {
    let c = Claims::claims_at(1_700_000_000, AuthLevel::Admin).unwrap();
    assert_eq!(c.exp, 1_700_000_000 + 31 * 24 * 3600);
    assert_eq!(c.iss, "khronos");
    assert_eq!(c.level, AuthLevel::Admin);
    assert_eq!(TOKEN_DURATION, 2_678_400);
}

#[test]
fn claims_at_refuses_readings_past_chrono_range() {
    let last = (MAX_TIMESTAMP - TOKEN_DURATION) as u64;
    let c = Claims::claims_at(last, AuthLevel::User).unwrap();
    assert_eq!(c.exp, MAX_TIMESTAMP);
    assert_eq!(Claims::claims_at(last + 1, AuthLevel::User), None);
    assert_eq!(Claims::claims_at(u64::MAX, AuthLevel::Admin), None);
    let first = Claims::claims_at(0, AuthLevel::Admin).unwrap();
    assert_eq!(first.exp, TOKEN_DURATION);
    assert_eq!(first.iss, issuer());
    assert_eq!(issuer(), "khronos");
}

#[test]
fn claims_issued_now() {
    let before = std::time::SystemTime::now()
        .duration_since(std::time::UNIX_EPOCH)
        .unwrap()
        .as_secs() as i64;
    let c = Claims::new(AuthLevel::User).expect("the clock is before year 262142");
    let after = std::time::SystemTime::now()
        .duration_since(std::time::UNIX_EPOCH)
        .unwrap()
        .as_secs() as i64;
    assert!(before + TOKEN_DURATION <= c.exp && c.exp <= after + TOKEN_DURATION);
    assert!(c.exp <= MAX_TIMESTAMP);
    assert_eq!(c.iss, "khronos");
    assert_eq!(c.level, AuthLevel::User);
}

#[test]
fn token_is_second_piece_of_header() {
    assert_eq!(token_from_header(Some("Bearer abc.def.ghi")), Ok("abc.def.ghi".to_string()));
    assert_eq!(token_from_header(Some("Bearer abc extra")), Ok("abc".to_string()));
    assert_eq!(token_from_header(Some("Bearer ")), Ok(String::new()));
    assert_eq!(token_from_header(Some("x  y")), Ok(String::new()));
    assert_eq!(token_from_header(Some(" tok")), Ok("tok".to_string()));
}

#[test]
fn missing_header_requires_auth() {
    assert_eq!(token_from_header(None), Err(Error::AuthRequired));
}

#[test]
fn user_endpoints_admit_every_level() {
    assert!(UserAuth::from_token_level(Ok(AuthLevel::User)).is_ok());
    assert!(UserAuth::from_token_level(Ok(AuthLevel::Admin)).is_ok());
    assert!(matches!(
        UserAuth::from_token_level(Err(Error::Token("bad".into()))),
        Err(Error::Token(m)) if m == "bad"
    ));
}

#[test]
fn admin_endpoints_admit_only_admins() {
    assert!(AdminAuth::from_token_level(Ok(AuthLevel::Admin)).is_ok());
    let refused = AdminAuth::from_token_level(Ok(AuthLevel::User)).err().unwrap();
    assert_eq!(
        refused,
        Error::InsufficientPrivilege { expected: AuthLevel::Admin, got: AuthLevel::User }
    );
    assert_eq!(refused.status_code(), 401);
    assert_eq!(refused.message(), "Level User attempted action requiring Admin");
    assert!(matches!(
        AdminAuth::from_token_level(Err(Error::AuthRequired)),
        Err(Error::AuthRequired)
    ));
}
