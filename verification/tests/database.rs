use axum::http::{HeaderMap, HeaderValue};
use sqlx::sqlite::{SqlitePool, SqlitePoolOptions};
use trick::reply::json_reply;
use trick::usage::{
    api_key_auth, create_key, setup_db, AuthAction, AuthEvent, CreateKeyAction, CreateKeyEvent,
    CreateKeyRequest, QueryOutcome, SqlValue, Statement,
};

async fn carry_out(pool: &SqlitePool, statement: &Statement) -> QueryOutcome {
    let mut query = sqlx::query(&statement.sql);
    for value in &statement.values {
        query = match value {
            SqlValue::Text(text) => query.bind(text.as_str()),
            SqlValue::Integer(n) => query.bind(*n),
        };
    }
    match query.fetch_optional(pool).await {
        Ok(Some(_)) => QueryOutcome::Row,
        Ok(None) => QueryOutcome::NoRow,
        Err(_) => QueryOutcome::Failed,
    }
}

async fn prepare(pool: &SqlitePool) -> Vec<QueryOutcome> {
    let mut outcomes = Vec::new();
    for step in setup_db() {
        outcomes.push(carry_out(pool, &step.statement).await);
    }
    outcomes
}

async fn database() -> SqlitePool {
    let pool = SqlitePoolOptions::new().max_connections(1).connect("sqlite::memory:").await.unwrap();
    let outcomes = prepare(&pool).await;
    assert_eq!(outcomes, vec![QueryOutcome::NoRow, QueryOutcome::NoRow]);
    pool
}

async fn check(pool: &SqlitePool, key: &str) -> AuthAction {
    let mut headers = HeaderMap::new();
    headers.insert("x-api-key", HeaderValue::from_str(key).unwrap());
    let mut action = api_key_auth(AuthEvent::Arrived(&headers));
    loop {
        action = match action {
            AuthAction::Charge { key, statement } => {
                let outcome = carry_out(pool, &statement).await;
                api_key_auth(AuthEvent::Charged { key, outcome })
            }
            AuthAction::LookUp(statement) => {
                api_key_auth(AuthEvent::LookedUp(carry_out(pool, &statement).await))
            }
            decision => return decision,
        };
    }
}

/// Makes a key with this quota.
async fn make(pool: &SqlitePool, max_quota: i64) -> (String, Statement) {
    let mut headers = HeaderMap::new();
    headers.insert("x-admin-key", HeaderValue::from_static("secret-admin"));
    let request = CreateKeyRequest { max_quota };
    match create_key(CreateKeyEvent::Requested { headers: &headers, configured: None, request }) {
        CreateKeyAction::Store { key, max_quota: _, statement } => {
            assert_eq!(carry_out(pool, &statement).await, QueryOutcome::NoRow);
            (key, statement)
        }
        other => panic!("{:?}", other),
    }
}

fn refuse(status: u16, error: &str) -> AuthAction {
    AuthAction::Refuse(json_reply(status, error))
}

fn with_runtime<F: std::future::Future<Output = ()>>(test: F) {
    tokio::runtime::Builder::new_current_thread().enable_all().build().unwrap().block_on(test)
}

#[test]
fn requests_are_answered_by_their_key() {
    with_runtime(async {
        let pool = database().await;
        assert_eq!(check(&pool, "trick-test-key-123").await, AuthAction::Admit);
        assert_eq!(check(&pool, "trick-test-key-124").await, refuse(401, "missing or invalid API key"));
    });
}

#[test]
fn new_key_is_good_for_its_quota() {
    with_runtime(async {
        let pool = database().await;
        let (key, statement) = make(&pool, 2).await;
        let (other, _) = make(&pool, 1).await;
        assert_eq!(check(&pool, &key).await, AuthAction::Admit);
        assert_eq!(check(&pool, &other).await, AuthAction::Admit);
        assert_eq!(check(&pool, &key).await, AuthAction::Admit);
        assert_eq!(check(&pool, &key).await, refuse(429, "quota exceeded"));
        assert_eq!(check(&pool, &other).await, refuse(429, "quota exceeded"));
        assert_eq!(carry_out(&pool, &statement).await, QueryOutcome::Failed);
        assert_eq!(check(&pool, &key).await, refuse(429, "quota exceeded"));
    });
}

#[test]
fn key_without_a_quota_is_never_admitted() {
    with_runtime(async {
        let pool = database().await;
        for quota in [0, -5] {
            let (key, _) = make(&pool, quota).await;
            assert_eq!(check(&pool, &key).await, refuse(429, "quota exceeded"));
        }
    });
}

#[test]
fn default_key_has_its_quota_and_setup_keeps_it() {
    with_runtime(async {
        let pool = database().await;
        for _ in 0..100 {
            assert_eq!(check(&pool, "trick-test-key-123").await, AuthAction::Admit);
        }
        assert_eq!(prepare(&pool).await, vec![QueryOutcome::NoRow, QueryOutcome::NoRow]);
        assert_eq!(check(&pool, "trick-test-key-123").await, refuse(429, "quota exceeded"));
    });
}

#[test]
fn database_that_fails() {
    with_runtime(async {
        let pool =
            SqlitePoolOptions::new().max_connections(1).connect("sqlite::memory:").await.unwrap();
        assert_eq!(check(&pool, "trick-test-key-123").await, refuse(500, "internal error"));
    });
}
