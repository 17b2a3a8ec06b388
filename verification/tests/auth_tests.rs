use doki::auth::{
    authenticate, credentials_from_bytes, decode_token, extract_auth_from_request,
    extract_payload_from_header, split_credentials, AuthOutcome, BasicAuthorizer,
};
use doki::settings::Auth;

#[test]
fn payload_follows_the_scheme() {
    assert_eq!(extract_payload_from_header("Basic dXNlcjpwYXNz"), Some("dXNlcjpwYXNz"));
    assert_eq!(extract_payload_from_header("Basic "), Some(""));
}

#[test]
fn other_schemes_have_no_payload() {
    assert_eq!(extract_payload_from_header("Bearer abc"), None);
    assert_eq!(extract_payload_from_header("basic dXNlcjpwYXNz"), None);
    assert_eq!(extract_payload_from_header("Basic"), None);
    assert_eq!(extract_payload_from_header(""), None);
    assert_eq!(extract_payload_from_header("BasicdXNlcjpwYXNz"), None);
}

#[test]
fn payload_may_hold_any_characters() {
    assert_eq!(extract_payload_from_header("Basic ключ"), Some("ключ"));
}

#[test]
fn token_decodes_to_name_and_password() {
    let user = decode_token("dXNlcjpwYXNz").expect("credentials");
    assert_eq!(user.username, "user");
    assert_eq!(user.password, "pass");
}

#[test]
fn token_with_empty_parts_is_accepted() {
    // "admin:" and ":" both have exactly one colon.
    let user = decode_token("YWRtaW46").expect("credentials");
    assert_eq!(user.username, "admin");
    assert_eq!(user.password, "");
    let user = decode_token("Og==").expect("credentials");
    assert_eq!(user.username, "");
    assert_eq!(user.password, "");
}

#[test]
fn token_that_is_not_base64_holds_nothing() {
    assert!(decode_token("not base64!").is_none());
    assert!(decode_token("dXNlcjpwYXNz=").is_none());
}

#[test]
fn token_without_colon_holds_nothing() {
    // "userpass"
    assert!(decode_token("dXNlcnBhc3M=").is_none());
    assert!(decode_token("").is_none());
}

#[test]
fn token_with_two_colons_holds_nothing() {
    // "a:b:c"
    assert!(decode_token("YTpiOmM=").is_none());
}

#[test]
fn bytes_that_are_not_text_hold_nothing() {
    assert!(credentials_from_bytes(vec![0xff, b':', b'a']).is_none());
    assert!(credentials_from_bytes(vec![b'a', b':', 0xc3]).is_none());
}

#[test]
fn bytes_split_at_their_colon() {
    let user = credentials_from_bytes("имя:пароль".as_bytes().to_vec()).expect("credentials");
    assert_eq!(user.username, "имя");
    assert_eq!(user.password, "пароль");
}

#[test]
fn text_splits_only_at_a_single_colon() {
    let user = split_credentials("left:right").expect("credentials");
    assert_eq!(user.username, "left");
    assert_eq!(user.password, "right");
    assert!(split_credentials("left").is_none());
    assert!(split_credentials("a::b").is_none());
    assert!(split_credentials(":a:").is_none());
}

#[test]
fn request_without_header_presents_nothing() {
    assert!(extract_auth_from_request(None).is_none());
    assert!(extract_auth_from_request(Some("Digest dXNlcjpwYXNz")).is_none());
}

#[test]
fn request_with_header_presents_credentials() {
    let user = extract_auth_from_request(Some("Basic dXNlcjpwYXNz")).expect("credentials");
    assert_eq!(user.username, "user");
    assert_eq!(user.password, "pass");
}

#[test]
fn authorizer_accepts_only_its_own_credentials() {
    let authorizer = BasicAuthorizer::new("user".to_string(), "pass".to_string());
    let admin = authorizer.authorize("user", "pass").expect("accepted");
    assert_eq!(admin.username, "user");
    assert_eq!(admin.password, "pass");
    assert_eq!(authorizer.authorize("user", "wrong").unwrap_err(), "Invalid credentials");
    assert_eq!(authorizer.authorize("other", "pass").unwrap_err(), "Invalid credentials");
    assert_eq!(authorizer.authorize("", "").unwrap_err(), "Invalid credentials");
    assert_eq!(authorizer.authorize("User", "pass").unwrap_err(), "Invalid credentials");
}

#[test]
fn authorizer_is_built_from_settings() {
    let settings = Auth { username: "root".to_string(), password: "secret".to_string() };
    let authorizer = BasicAuthorizer::managed(settings);
    assert!(authorizer.authorize("root", "secret").is_ok());
    assert!(authorizer.authorize("root", "Secret").is_err());
}

#[test]
fn authenticate_grants_the_administrator() {
    let authorizer = BasicAuthorizer::new("user".to_string(), "pass".to_string());
    match authenticate(Some(&authorizer), Some("Basic dXNlcjpwYXNz")) {
        AuthOutcome::Granted(admin) => {
            assert_eq!(admin.username, "user");
            assert_eq!(admin.password, "pass");
        }
        other => panic!("unexpected outcome {:?}", other),
    }
}

#[test]
fn authenticate_rejects_other_credentials() {
    let authorizer = BasicAuthorizer::new("user".to_string(), "other".to_string());
    assert!(matches!(
        authenticate(Some(&authorizer), Some("Basic dXNlcjpwYXNz")),
        AuthOutcome::Rejected
    ));
}

#[test]
fn authenticate_finds_bad_headers_malformed() {
    let authorizer = BasicAuthorizer::new("user".to_string(), "pass".to_string());
    assert!(matches!(authenticate(Some(&authorizer), None), AuthOutcome::Malformed));
    assert!(matches!(authenticate(Some(&authorizer), Some("Basic ???")), AuthOutcome::Malformed));
    assert!(matches!(authenticate(None, Some("Bearer x")), AuthOutcome::Malformed));
}

#[test]
fn authenticate_without_authorizer_is_unavailable() {
    assert!(matches!(authenticate(None, Some("Basic dXNlcjpwYXNz")), AuthOutcome::Unavailable));
}
