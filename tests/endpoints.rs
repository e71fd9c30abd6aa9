use lu_sso_auth::login::{format_session_key, grant, login_response, LoginError, LoginResponse};
use lu_sso_auth::models::User;
use lu_sso_auth::verification::{find_byte, parse, respond, Response};

fn user(password_hash: &str) -> User {
    User {
        id: 1,
        username: "alice".to_string(),
        password: password_hash.to_string(),
        redirect_host: "world.example".to_string(),
        redirect_port: 2002,
        session_key: String::new(),
    }
}

#[test]
fn parse_well_formed_request() {
    let req = b"GET /verify/alice/00ff HTTP/1.1\r\nHost: x\r\n\r\n";
    assert_eq!(parse(req), Some(("alice".to_string(), "00ff".to_string())));
}

#[test]
fn parse_ignores_trailing_fields_and_zero_fill() {
    let mut buf = [0u8; 512];
    let req = b"GET /verify/bob/k/extra HTTP/1.1\r extra\n";
    buf[..req.len()].copy_from_slice(req);
    assert_eq!(parse(&buf), Some(("bob".to_string(), "k".to_string())));
}

#[test]
fn parse_rejects_malformed_requests() {
    assert_eq!(parse(b"POST /verify/a/b HTTP/1.1\r\n"), None);
    assert_eq!(parse(b"GET /verify/a/b HTTP/1.0\r\n"), None);
    assert_eq!(parse(b"GET /check/a/b HTTP/1.1\r\n"), None);
    assert_eq!(parse(b"GET /verify/a HTTP/1.1\r\n"), None);
    assert_eq!(parse(b"GET /verify/a/b\r\n"), None);
    assert_eq!(parse(b"GET  HTTP/1.1\r\n"), None);
    assert_eq!(parse(b""), None);
    assert_eq!(parse(b"GET /verify/\xff/b HTTP/1.1\r\n"), None);
}

#[test]
fn parse_allows_empty_fields() {
    assert_eq!(parse(b"GET /verify// HTTP/1.1\r\n"), Some((String::new(), String::new())));
}

#[test]
fn find_byte_positions() {
    assert_eq!(find_byte(b"a b c", 0, b' '), 1);
    assert_eq!(find_byte(b"a b c", 2, b' '), 3);
    assert_eq!(find_byte(b"a b c", 4, b' '), 5);
    assert_eq!(find_byte(b"abc", 9, b' '), 3);
}

#[test]
fn responses() {
    assert_eq!(respond(false, Some(true)), Response::BadRequest);
    assert_eq!(respond(true, Some(true)), Response::Valid);
    assert_eq!(respond(true, Some(false)), Response::Invalid);
    assert_eq!(respond(true, None), Response::LookupFailed);
    assert_eq!(Response::Valid.text(), "HTTP/1.1 200 \r\n\r\n1");
    assert_eq!(Response::Invalid.text(), "HTTP/1.1 200 \r\n\r\n0");
    assert_eq!(Response::BadRequest.text(), "HTTP/1.1 400 \r\n\r\n");
    assert_eq!(Response::LookupFailed.text(), "HTTP/1.1 500 \r\n\r\n");
}

#[test]
fn session_key_format() {
    assert_eq!(format_session_key(0), "0".repeat(32));
    assert_eq!(format_session_key(0xab), format!("{}ab", "0".repeat(30)));
    assert_eq!(format_session_key(u128::MAX), "f".repeat(32));
    let k = 0x0123_4567_89ab_cdef_fedc_ba98_7654_3210u128;
    assert_eq!(format_session_key(k), format!("{:032x}", k));
}

#[test]
fn grant_carries_redirect() {
    let u = user("");
    match grant(&u, 0x10) {
        LoginResponse::Granted { session_key, redirect_host, redirect_port } => {
            assert_eq!(session_key, format!("{:032x}", 0x10));
            assert_eq!(redirect_host, "world.example");
            assert_eq!(redirect_port, 2002);
        }
        LoginResponse::InvalidUsernamePassword => panic!("expected a grant"),
    }
}

#[test]
fn login_unknown_user() {
    assert!(matches!(login_response("pw", None), Ok(LoginResponse::InvalidUsernamePassword)));
}

#[test]
fn login_password_check() {
    let hash = bcrypt::hash("secret", 4).unwrap();
    let u = user(&hash);
    assert!(matches!(login_response("wrong", Some(&u)), Ok(LoginResponse::InvalidUsernamePassword)));
    match login_response("secret", Some(&u)) {
        Ok(LoginResponse::Granted { session_key, redirect_host, redirect_port }) => {
            assert_eq!(session_key.len(), 32);
            assert!(session_key.chars().all(|c| c.is_ascii_hexdigit() && !c.is_ascii_uppercase()));
            assert_eq!(redirect_host, "world.example");
            assert_eq!(redirect_port, 2002);
        }
        _ => panic!("expected a grant"),
    }
}

#[test]
fn login_bad_stored_hash() {
    let u = user("not a bcrypt hash");
    assert!(matches!(login_response("pw", Some(&u)), Err(LoginError::BadStoredHash)));
}

#[test]
fn parse_requires_leading_slash() {
    assert_eq!(parse(b"GET xverify/a/b HTTP/1.1\r\n"), None);
    assert_eq!(parse(b"GET verify/a/b HTTP/1.1\r\n"), None);
    assert_eq!(parse(b"GET /verify/a/b HTTP/1.1\r\n"), Some(("a".to_string(), "b".to_string())));
}
