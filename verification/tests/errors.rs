use khronos::auth::AuthLevel;
use khronos::error::{Error, ErrorResponse};

#[test]
fn status_codes_of_each_error() {
    assert_eq!(Error::InvalidGroupFormat("X".into()).status_code(), 400);
    assert_eq!(Error::FileNotFound("x".into()).status_code(), 404);
    assert_eq!(Error::DatabaseError("down".into()).status_code(), 500);
    assert_eq!(Error::KeysExtension("gone".into()).status_code(), 500);
    assert_eq!(Error::AuthRequired.status_code(), 401);
    assert_eq!(Error::Token("expired".into()).status_code(), 401);
    assert_eq!(
        Error::InsufficientPrivilege { expected: AuthLevel::Admin, got: AuthLevel::User }.status_code(),
        401
    );
}

#[test]
fn messages_of_each_error() {
    assert_eq!(Error::InvalidGroupFormat("X".into()).message(), "Invalid group format");
    assert_eq!(Error::FileNotFound("a.txt".into()).message(), "File \"a.txt\" not found");
    assert_eq!(
        Error::FileNotFound("a\"b\n".into()).message(),
        "File \"a\\\"b\\n\" not found"
    );
    assert_eq!(Error::DatabaseError("down".into()).message(), "Database error");
    assert_eq!(
        Error::KeysExtension("gone".into()).message(),
        "Failed to acquire keys from request extension: gone"
    );
    assert_eq!(Error::AuthRequired.message(), "Missing cookie or token");
    assert_eq!(Error::Token("ExpiredSignature".into()).message(), "JSON web token error: ExpiredSignature");
    assert_eq!(
        Error::InsufficientPrivilege { expected: AuthLevel::Admin, got: AuthLevel::User }.message(),
        "Level User attempted action requiring Admin"
    );
}

#[test]
fn into_response_pairs_status_and_message() {
    assert_eq!(
        Error::AuthRequired.into_response(),
        ErrorResponse { status: 401, body: "Missing cookie or token".to_string() }
    );
    assert_eq!(
        Error::InvalidGroupFormat("Q".into()).into_response(),
        ErrorResponse { status: 400, body: "Invalid group format".to_string() }
    );
}

#[test]
fn every_error_status_is_a_failure() {
    let all = vec![
        Error::FileNotFound("f".into()),
        Error::DatabaseError("d".into()),
        Error::InvalidGroupFormat("g".into()),
        Error::KeysExtension("k".into()),
        Error::AuthRequired,
        Error::Token("t".into()),
        Error::InsufficientPrivilege { expected: AuthLevel::Admin, got: AuthLevel::User },
    ];
    for e in all {
        let s = e.status_code();
        assert!((400..600).contains(&s));
        let auth = matches!(e, Error::AuthRequired | Error::Token(_) | Error::InsufficientPrivilege { .. });
        assert_eq!(s == 401, auth);
    }
}
