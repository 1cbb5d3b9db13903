use axum::http::{HeaderMap, HeaderValue};
use trick::config::{database_url, listen_address};
use trick::headers::{read_header_text, read_visible_text};
use trick::reply::json_reply;
use trick::usage::{
    api_key_auth, create_key, is_admin, issue_key, setup_db, AuthAction, AuthEvent, CreateKeyAction,
    CreateKeyEvent, CreateKeyRequest, CreateKeyResponse, QueryOutcome, SqlValue, CHARGE_KEY, FIND_KEY,
    INSERT_KEY,
};

fn headers(name: &'static str, value: &[u8]) -> HeaderMap {
    let mut headers = HeaderMap::new();
    headers.insert(name, HeaderValue::from_bytes(value).unwrap());
    headers
}

fn refuse(status: u16, error: &str) -> AuthAction {
    AuthAction::Refuse(json_reply(status, error))
}

fn charged(outcome: QueryOutcome) -> AuthEvent<'static> {
    AuthEvent::Charged { key: "k".to_string(), outcome }
}

#[test]
fn database_is_set_up() {
    let steps = setup_db();
    assert_eq!(steps.len(), 2);
    assert!(steps[0].required);
    assert!(steps[0].statement.sql.starts_with("CREATE TABLE IF NOT EXISTS api_keys"));
    assert!(steps[0].statement.values.is_empty());
    assert!(!steps[1].required);
    assert!(steps[1].statement.sql.ends_with("ON CONFLICT(key) DO NOTHING"));
    assert_eq!(
        steps[1].statement.values,
        vec![SqlValue::Text("trick-test-key-123".to_string()), SqlValue::Integer(100)]
    );
}

#[test]
fn request_without_a_key() {
    let none = HeaderMap::new();
    assert_eq!(api_key_auth(AuthEvent::Arrived(&none)), refuse(401, "missing or invalid API key"));
    let other = headers("x-admin-key", b"k");
    assert_eq!(api_key_auth(AuthEvent::Arrived(&other)), refuse(401, "missing or invalid API key"));
    let unreadable = headers("x-api-key", b"k\xfa");
    assert_eq!(api_key_auth(AuthEvent::Arrived(&unreadable)), refuse(401, "missing or invalid API key"));
}

#[test]
fn request_with_a_key_is_charged() {
    let mut given = headers("x-api-key", b"trick test\t~");
    given.append("x-api-key", HeaderValue::from_static("second"));
    match api_key_auth(AuthEvent::Arrived(&given)) {
        AuthAction::Charge { key, statement } => {
            assert_eq!(key, "trick test\t~");
            assert_eq!(statement.sql, CHARGE_KEY);
            assert_eq!(statement.values, vec![SqlValue::Text(key)]);
        }
        other => panic!("{:?}", other),
    }
}

#[test]
fn charged_key_is_admitted() {
    assert_eq!(api_key_auth(charged(QueryOutcome::Row)), AuthAction::Admit);
    assert_eq!(api_key_auth(charged(QueryOutcome::Failed)), refuse(500, "internal error"));
}

#[test]
fn key_that_could_not_be_charged_is_looked_up() {
    match api_key_auth(charged(QueryOutcome::NoRow)) {
        AuthAction::LookUp(statement) => {
            assert_eq!(statement.sql, FIND_KEY);
            assert_eq!(statement.values, vec![SqlValue::Text("k".to_string())]);
        }
        other => panic!("{:?}", other),
    }
    assert_eq!(api_key_auth(AuthEvent::LookedUp(QueryOutcome::Row)), refuse(429, "quota exceeded"));
    assert_eq!(api_key_auth(AuthEvent::LookedUp(QueryOutcome::NoRow)), refuse(401, "missing or invalid API key"));
    assert_eq!(api_key_auth(AuthEvent::LookedUp(QueryOutcome::Failed)), refuse(500, "internal error"));
}

#[test]
fn quota_of_a_key_is_used_up() {
    let quota = 3;
    let mut used = 0;
    let given = headers("x-api-key", b"k");
    let mut answers = Vec::new();
    for _ in 0..5 {
        let mut action = api_key_auth(AuthEvent::Arrived(&given));
        if let AuthAction::Charge { key, .. } = action {
            let outcome = if used < quota {
                used += 1;
                QueryOutcome::Row
            } else {
                QueryOutcome::NoRow
            };
            action = api_key_auth(AuthEvent::Charged { key, outcome });
        }
        if let AuthAction::LookUp(_) = action {
            action = api_key_auth(AuthEvent::LookedUp(QueryOutcome::Row));
        }
        answers.push(action);
    }
    assert_eq!(used, quota);
    assert_eq!(
        answers,
        vec![
            AuthAction::Admit,
            AuthAction::Admit,
            AuthAction::Admit,
            refuse(429, "quota exceeded"),
            refuse(429, "quota exceeded"),
        ]
    );
}

fn no_key(status: u16, error: &str) -> CreateKeyAction {
    CreateKeyAction::Refuse(json_reply(status, error))
}

#[test]
fn request_for_a_key_that_cannot_be_read() {
    let action = create_key(CreateKeyEvent::Unreadable { status: 415, reason: "no JSON".to_string() });
    assert_eq!(action, no_key(415, "no JSON"));
}

fn create(headers: &HeaderMap, configured: Option<&str>) -> CreateKeyAction {
    create_key(CreateKeyEvent::Requested {
        headers,
        configured: configured.map(|c| c.to_string()),
        request: CreateKeyRequest { max_quota: 500 },
    })
}

#[test]
fn key_is_made_for_the_admin() {
    let given = headers("x-admin-key", b"pass");
    match create(&given, Some("pass")) {
        CreateKeyAction::Store { key, max_quota, statement } => {
            assert_eq!(max_quota, 500);
            assert_eq!(statement.sql, INSERT_KEY);
            assert_eq!(
                statement.values,
                vec![SqlValue::Text(key.clone()), SqlValue::Integer(500)]
            );
            let id = uuid::Uuid::parse_str(key.strip_prefix("trick-").unwrap()).unwrap();
            assert_eq!(id.get_version_num(), 4);
            assert_eq!(key, format!("trick-{}", id));
            assert_eq!(key.len(), 42);
        }
        other => panic!("{:?}", other),
    }
}

#[test]
fn made_keys_differ() {
    let given = headers("x-admin-key", b"pass");
    let mut keys = Vec::new();
    for _ in 0..2 {
        if let CreateKeyAction::Store { key, .. } = create(&given, Some("pass")) {
            keys.push(key);
        }
    }
    assert_eq!(keys.len(), 2);
    assert_ne!(keys[0], keys[1]);
}

#[test]
fn default_admin_key() {
    let given = headers("x-admin-key", b"secret-admin");
    assert!(matches!(create(&given, None), CreateKeyAction::Store { .. }));
    assert_eq!(create(&given, Some("other")), no_key(401, "invalid admin key"));
}

#[test]
fn key_is_refused_to_others() {
    let none = HeaderMap::new();
    assert_eq!(create(&none, Some("pass")), no_key(401, "invalid admin key"));
    assert_eq!(create(&none, None), no_key(401, "invalid admin key"));
    let wrong = headers("x-admin-key", b"Pass");
    assert_eq!(create(&wrong, Some("pass")), no_key(401, "invalid admin key"));
    let unreadable = headers("x-admin-key", b"pass\xff");
    assert_eq!(create(&unreadable, Some("pass")), no_key(401, "invalid admin key"));
    let empty = headers("x-admin-key", b"");
    assert!(matches!(create(&empty, Some("")), CreateKeyAction::Store { .. }));
}

#[test]
fn key_is_handed_out_once_stored() {
    let stored = |succeeded| {
        create_key(CreateKeyEvent::Stored { key: "k".to_string(), max_quota: 7, succeeded })
    };
    assert_eq!(
        stored(true),
        CreateKeyAction::Created(CreateKeyResponse { key: "k".to_string(), max_quota: 7 })
    );
    assert_eq!(stored(false), no_key(500, "failed to generate API key"));
}

#[test]
fn admin_and_keys_by_hand() {
    assert!(is_admin(&Some("secret-admin".to_string()), &None));
    assert!(!is_admin(&None, &None));
    assert_eq!(issue_key("a1b2"), "trick-a1b2");
}

#[test]
fn header_values_are_read_as_visible_text() {
    for byte in 0..=255u8 {
        if let Ok(value) = HeaderValue::from_bytes(&[b'a', byte]) {
            let expected = value.to_str().ok().map(|s| s.to_string());
            assert_eq!(read_visible_text(&vec![b'a', byte]), expected);
        }
    }
    let given = headers("x-api-key", b"k");
    assert_eq!(read_header_text(&given, "x-api-key"), Some("k".to_string()));
    assert_eq!(read_header_text(&given, "x-admin-key"), None);
}

#[test]
fn configuration_and_defaults() {
    assert_eq!(database_url(None), "sqlite:data.db?mode=rwc");
    assert_eq!(database_url(Some("sqlite::memory:".to_string())), "sqlite::memory:");
    assert_eq!(listen_address(None), "0.0.0.0:3000");
    assert_eq!(listen_address(Some("8080".to_string())), "0.0.0.0:8080");
}
