//! API keys: who may use the service, how often, and who may hand out keys. The keys
//! are kept in a database; each function here takes what happened and gives what is
//! to be done.
use crate::headers::{header_text, header_value, read_header_text};
use crate::reply::{is_error, json_error, json_reply, says, Reply, ReplyView};
use crate::text::{join, optional_text, same_text};
use vstd::prelude::*;

verus! {

/// Makes the table of keys unless it is there.
pub const CREATE_TABLE: &'static str =
    "CREATE TABLE IF NOT EXISTS api_keys (key TEXT PRIMARY KEY, usage_count INTEGER DEFAULT 0, max_quota INTEGER DEFAULT 100);";

/// Adds a key with its quota unless there is a key of that name.
pub const SEED_KEY: &'static str =
    "INSERT INTO api_keys (key, max_quota) VALUES (?, ?) ON CONFLICT(key) DO NOTHING";

/// Adds a key with its quota.
pub const INSERT_KEY: &'static str = "INSERT INTO api_keys (key, max_quota) VALUES (?, ?)";

/// Counts one more use of a key that is below its quota, and gives the key then.
pub const CHARGE_KEY: &'static str =
    "UPDATE api_keys SET usage_count = usage_count + 1 WHERE key = ? AND usage_count < max_quota RETURNING key";

/// Gives the use and the quota of a key.
pub const FIND_KEY: &'static str = "SELECT usage_count, max_quota FROM api_keys WHERE key = ?";

/// A value that goes into a statement in place of a question mark.
#[derive(Debug, PartialEq, Eq)]
pub enum SqlValue {
    Text(String),
    Integer(i64),
}

/// A statement for the database, with the values that go into it.
#[derive(Debug, PartialEq, Eq)]
pub struct Statement {
    pub sql: String,
    pub values: Vec<SqlValue>,
}

/// A value that goes into a statement, as a mathematical value.
pub enum SqlValueView {
    Text(Seq<char>),
    Integer(i64),
}

/// A statement for the database, as mathematical values.
pub struct StatementView {
    pub sql: Seq<char>,
    pub values: Seq<SqlValueView>,
}

impl View for SqlValue {
    type V = SqlValueView;

    open spec fn view(&self) -> SqlValueView {
        match self {
            SqlValue::Text(text) => SqlValueView::Text(text@),
            SqlValue::Integer(n) => SqlValueView::Integer(*n),
        }
    }
}

impl View for Statement {
    type V = StatementView;

    open spec fn view(&self) -> StatementView {
        StatementView { sql: self.sql@, values: self.values@.map_values(|v: SqlValue| v@) }
    }
}

/// The statement that makes the table of keys.
pub open spec fn make_table() -> StatementView {
    StatementView { sql: CREATE_TABLE@, values: Seq::empty() }
}

/// The statement that adds a key unless it is there.
pub open spec fn seed(key: Seq<char>, quota: i64) -> StatementView {
    StatementView {
        sql: SEED_KEY@,
        values: seq![SqlValueView::Text(key), SqlValueView::Integer(quota)],
    }
}

/// The statement that adds a key.
pub open spec fn insert(key: Seq<char>, quota: i64) -> StatementView {
    StatementView {
        sql: INSERT_KEY@,
        values: seq![SqlValueView::Text(key), SqlValueView::Integer(quota)],
    }
}

/// The statement that counts one more use of a key.
pub open spec fn charge(key: Seq<char>) -> StatementView {
    StatementView { sql: CHARGE_KEY@, values: seq![SqlValueView::Text(key)] }
}

/// The statement that looks for a key.
pub open spec fn find(key: Seq<char>) -> StatementView {
    StatementView { sql: FIND_KEY@, values: seq![SqlValueView::Text(key)] }
}

/// A statement about a key.
fn key_statement(sql: &str, key: &str) -> (statement: Statement)
    ensures
        statement@ == (StatementView { sql: sql@, values: seq![SqlValueView::Text(key@)] }),
{
    let statement = Statement { sql: sql.to_owned(), values: vec![SqlValue::Text(key.to_owned())] };
    assert(statement@.values =~= seq![SqlValueView::Text(key@)]);
    statement
}

/// A statement about a key and its quota.
fn quota_statement(sql: &str, key: &str, quota: i64) -> (statement: Statement)
    ensures
        statement@ == (StatementView {
            sql: sql@,
            values: seq![SqlValueView::Text(key@), SqlValueView::Integer(quota)],
        }),
{
    let statement = Statement {
        sql: sql.to_owned(),
        values: vec![SqlValue::Text(key.to_owned()), SqlValue::Integer(quota)],
    };
    assert(statement@.values =~= seq![SqlValueView::Text(key@), SqlValueView::Integer(quota)]);
    statement
}

/// A statement that prepares the database, and whether the service needs it to succeed.
#[derive(Debug, PartialEq, Eq)]
pub struct SetupStep {
    pub statement: Statement,
    pub required: bool,
}

/// The key that is there for demonstration.
pub const DEFAULT_KEY: &'static str = "trick-test-key-123";

/// The quota of the key that is there for demonstration.
pub const DEFAULT_QUOTA: i64 = 100;

/// The statements that prepare the database, in order: the table is made, and the
/// default key is added, which may fail.
pub fn setup_db() -> (steps: Vec<SetupStep>)
    ensures
        steps.len() == 2,
        steps[0].statement@ == make_table(),
        steps[0].required,
        steps[1].statement@ == seed(DEFAULT_KEY@, DEFAULT_QUOTA),
        !steps[1].required,
{
    let table = Statement { sql: CREATE_TABLE.to_owned(), values: Vec::new() };
    assert(table@.values =~= Seq::empty());
    let key = quota_statement(SEED_KEY, DEFAULT_KEY, DEFAULT_QUOTA);
    vec![
        SetupStep { statement: table, required: true },
        SetupStep { statement: key, required: false },
    ]
}

/// What came of a statement that gives at most one row.
#[derive(Debug, Clone, Copy, PartialEq, Eq)]
pub enum QueryOutcome {
    Row,
    NoRow,
    Failed,
}

/// What can happen while the key of a request is checked.
#[derive(Debug)]
pub enum AuthEvent<'a> {
    /// A request came with these headers.
    Arrived(&'a axum::http::HeaderMap),
    /// The statement that charges the key was carried out.
    Charged { key: String, outcome: QueryOutcome },
    /// The statement that looks for the key was carried out.
    LookedUp(QueryOutcome),
}

/// What is to be done next to check the key of a request.
#[derive(Debug, PartialEq, Eq)]
pub enum AuthAction {
    /// Carry out the statement, which charges this key.
    Charge { key: String, statement: Statement },
    /// Carry out the statement, which looks for the key.
    LookUp(Statement),
    /// Let the request through.
    Admit,
    /// Answer the request.
    Refuse(Reply),
}

/// What can happen while a key is checked, as mathematical values: a request comes
/// with the value of its `x-api-key` header.
pub enum AuthEventView {
    Arrived(Option<Seq<u8>>),
    Charged { key: Seq<char>, outcome: QueryOutcome },
    LookedUp(QueryOutcome),
}

/// What is to be done to check a key, as mathematical values.
pub enum AuthActionView {
    Charge { key: Seq<char>, statement: StatementView },
    LookUp(StatementView),
    Admit,
    Refuse(ReplyView),
}

impl<'a> View for AuthEvent<'a> {
    type V = AuthEventView;

    open spec fn view(&self) -> AuthEventView {
        match *self {
            AuthEvent::Arrived(headers) => AuthEventView::Arrived(header_value(*headers, "x-api-key"@)),
            AuthEvent::Charged { key, outcome } => AuthEventView::Charged { key: key@, outcome },
            AuthEvent::LookedUp(outcome) => AuthEventView::LookedUp(outcome),
        }
    }
}

impl View for AuthAction {
    type V = AuthActionView;

    open spec fn view(&self) -> AuthActionView {
        match *self {
            AuthAction::Charge { key, statement } => AuthActionView::Charge {
                key: key@,
                statement: statement@,
            },
            AuthAction::LookUp(statement) => AuthActionView::LookUp(statement@),
            AuthAction::Admit => AuthActionView::Admit,
            AuthAction::Refuse(reply) => AuthActionView::Refuse(reply@),
        }
    }
}

/// The reply to a request without a key, or with one that is not there.
pub open spec fn no_key() -> ReplyView {
    json_error(401, "missing or invalid API key"@)
}

/// The reply to a request whose key is at its quota.
pub open spec fn over_quota() -> ReplyView {
    json_error(429, "quota exceeded"@)
}

/// The reply when the database failed.
pub open spec fn no_database() -> ReplyView {
    json_error(500, "internal error"@)
}

/// What is to be done after an event. A request without a key that can be read is
/// refused; one with a key is let through if the key could be charged; if not, the
/// key is over its quota or not there at all.
pub open spec fn auth_step(event: AuthEventView) -> AuthActionView {
    match event {
        AuthEventView::Arrived(value) => match header_text(value) {
            Some(key) => AuthActionView::Charge { key, statement: charge(key) },
            None => AuthActionView::Refuse(no_key()),
        },
        AuthEventView::Charged { key, outcome } => match outcome {
            QueryOutcome::Row => AuthActionView::Admit,
            QueryOutcome::NoRow => AuthActionView::LookUp(find(key)),
            QueryOutcome::Failed => AuthActionView::Refuse(no_database()),
        },
        AuthEventView::LookedUp(outcome) => match outcome {
            QueryOutcome::Row => AuthActionView::Refuse(over_quota()),
            QueryOutcome::NoRow => AuthActionView::Refuse(no_key()),
            QueryOutcome::Failed => AuthActionView::Refuse(no_database()),
        },
    }
}

/// Checks the key of a request and counts its use.
pub fn api_key_auth(event: AuthEvent<'_>) -> (action: AuthAction)
    ensures
        action@ == auth_step(event@),
{
    match event {
        AuthEvent::Arrived(headers) => {
            proof {
                reveal_strlit("x-api-key");
            }
            match read_header_text(headers, "x-api-key") {
                Some(key) => {
                    let statement = key_statement(CHARGE_KEY, key.as_str());
                    AuthAction::Charge { key, statement }
                },
                None => AuthAction::Refuse(json_reply(401, "missing or invalid API key")),
            }
        },
        AuthEvent::Charged { key, outcome } => match outcome {
            QueryOutcome::Row => AuthAction::Admit,
            QueryOutcome::NoRow => AuthAction::LookUp(key_statement(FIND_KEY, key.as_str())),
            QueryOutcome::Failed => AuthAction::Refuse(json_reply(500, "internal error")),
        },
        AuthEvent::LookedUp(outcome) => match outcome {
            QueryOutcome::Row => AuthAction::Refuse(json_reply(429, "quota exceeded")),
            QueryOutcome::NoRow => AuthAction::Refuse(json_reply(401, "missing or invalid API key")),
            QueryOutcome::Failed => AuthAction::Refuse(json_reply(500, "internal error")),
        },
    }
}

/// Whatever happens while a key is checked, a refusal is an error of status 401, 429 or
/// 500 with its message in JSON.
pub proof fn law_refusals_are_documented(event: AuthEventView)
    ensures
        auth_step(event) matches AuthActionView::Refuse(reply) ==> is_error(
            reply,
            set![401u16, 429u16, 500u16],
        ),
{
}

/// The body of a request for a key.
#[derive(Debug, PartialEq, Eq)]
pub struct CreateKeyRequest {
    pub max_quota: i64,
}

/// The key that was made.
#[derive(Debug, PartialEq, Eq)]
pub struct CreateKeyResponse {
    pub key: String,
    pub max_quota: i64,
}

/// Whether `c` is a hexadecimal digit in lower case.
pub open spec fn is_hex_digit(c: char) -> bool {
    '0' <= c <= '9' || 'a' <= c <= 'f'
}

/// Whether `text` is a random UUID, in groups of digits with hyphens between.
pub open spec fn is_random_uuid(text: Seq<char>) -> bool {
    &&& text.len() == 36
    &&& forall|i: int|
        0 <= i < 36 ==> if i == 8 || i == 13 || i == 18 || i == 23 {
            #[trigger] text[i] == '-'
        } else {
            is_hex_digit(text[i])
        }
    &&& text[14] == '4'
    &&& text[19] == '8' || text[19] == '9' || text[19] == 'a' || text[19] == 'b'
}

/// Calls `uuid::Uuid::new_v4` and writes the UUID as text. It is made of random bits
/// from the system, so only its form is stated.
#[verifier::external_body]
fn new_uuid() -> (text: String)
    ensures
        is_random_uuid(text@),
{
    uuid::Uuid::new_v4().to_string()
}

/// The key that is made from a UUID.
pub open spec fn key_from(uuid: Seq<char>) -> Seq<char> {
    "trick-"@ + uuid
}

/// Whether `key` is made from some random UUID.
pub open spec fn is_issued_key(key: Seq<char>) -> bool {
    exists|uuid: Seq<char>| is_random_uuid(uuid) && key == #[trigger] key_from(uuid)
}

/// The key that is made from a UUID.
pub fn issue_key(uuid: &str) -> (key: String)
    ensures
        key@ == key_from(uuid@),
{
    join("trick-", uuid)
}

/// The key that hands out keys: the configured one, or the default.
pub open spec fn expected_admin(configured: Option<Seq<char>>) -> Seq<char> {
    match configured {
        Some(key) => key,
        None => "secret-admin"@,
    }
}

/// Whether the text of the `x-admin-key` header is the key that hands out keys.
pub fn is_admin(admin_key: &Option<String>, configured: &Option<String>) -> (admin: bool)
    ensures
        admin == (optional_text(*admin_key) == Some(expected_admin(optional_text(*configured)))),
        *configured matches Some(expected) ==> admin == (*admin_key matches Some(key) && key@ == expected@),
        *configured is None ==> admin == (*admin_key matches Some(key) && key@ == "secret-admin"@),
{
    match (admin_key, configured) {
        (Some(key), Some(expected)) => same_text(key.as_str(), expected.as_str()),
        (Some(key), None) => same_text(key.as_str(), "secret-admin"),
        (None, _) => false,
    }
}

/// What can happen to a request for a key.
#[derive(Debug)]
pub enum CreateKeyEvent<'a> {
    /// The body could not be read: the status that this calls for, and the reason.
    Unreadable { status: u16, reason: String },
    /// A request came with these headers, while this admin key is configured.
    Requested {
        headers: &'a axum::http::HeaderMap,
        configured: Option<String>,
        request: CreateKeyRequest,
    },
    /// The statement that adds the key was carried out, or failed.
    Stored { key: String, max_quota: i64, succeeded: bool },
}

/// What is to be done next for a request for a key.
#[derive(Debug, PartialEq, Eq)]
pub enum CreateKeyAction {
    /// Carry out the statement, which adds this key.
    Store { key: String, max_quota: i64, statement: Statement },
    /// Hand out the key.
    Created(CreateKeyResponse),
    /// Answer the request.
    Refuse(Reply),
}

/// Makes a key for those who may hand out keys.
pub fn create_key(event: CreateKeyEvent<'_>) -> (action: CreateKeyAction)
    ensures
        match event {
            CreateKeyEvent::Unreadable { status, reason } => action matches CreateKeyAction::Refuse(reply)
                && reply@ == json_error(status, reason@),
            CreateKeyEvent::Requested { headers, configured, request } => if header_text(
                header_value(*headers, "x-admin-key"@),
            ) == Some(expected_admin(optional_text(configured))) {
                action matches CreateKeyAction::Store { key, max_quota, statement } && is_issued_key(key@)
                    && max_quota == request.max_quota && statement@ == insert(key@, request.max_quota)
            } else {
                action matches CreateKeyAction::Refuse(reply) && reply@ == json_error(
                    401,
                    "invalid admin key"@,
                )
            },
            CreateKeyEvent::Stored { key, max_quota, succeeded } => if succeeded {
                action == CreateKeyAction::Created(CreateKeyResponse { key, max_quota })
            } else {
                action matches CreateKeyAction::Refuse(reply) && reply@ == json_error(
                    500,
                    "failed to generate API key"@,
                )
            },
        },
        event matches CreateKeyEvent::Requested { headers, configured, request } ==> {
            let given = header_text(header_value(*headers, "x-admin-key"@));
            let allowed = match configured {
                Some(expected) => given == Some(expected@),
                None => given == Some("secret-admin"@),
            };
            &&& allowed ==> (action matches CreateKeyAction::Store { key, max_quota, statement }
                && max_quota == request.max_quota && statement@.values.len() == 2 && statement@.values[0]
                == SqlValueView::Text(key@) && statement@.values[1] == SqlValueView::Integer(request.max_quota))
            &&& !allowed ==> (action matches CreateKeyAction::Refuse(reply) && says(
                reply@,
                401,
                "invalid admin key"@,
            ))
        },
{
    match event {
        CreateKeyEvent::Unreadable { status, reason } => CreateKeyAction::Refuse(
            json_reply(status, reason.as_str()),
        ),
        CreateKeyEvent::Requested { headers, configured, request } => {
            proof {
                reveal_strlit("x-admin-key");
            }
            let admin_key = read_header_text(headers, "x-admin-key");
            if !is_admin(&admin_key, &configured) {
                return CreateKeyAction::Refuse(json_reply(401, "invalid admin key"));
            }
            let uuid = new_uuid();
            let key = issue_key(uuid.as_str());
            assert(is_issued_key(key@));
            let statement = quota_statement(INSERT_KEY, key.as_str(), request.max_quota);
            CreateKeyAction::Store { key, max_quota: request.max_quota, statement }
        },
        CreateKeyEvent::Stored { key, max_quota, succeeded } => {
            if succeeded {
                CreateKeyAction::Created(CreateKeyResponse { key, max_quota })
            } else {
                CreateKeyAction::Refuse(json_reply(500, "failed to generate API key"))
            }
        },
    }
}

/// Each statement is about just the key and the quota that it was made for.
pub proof fn law_statements_are_about_their_key(key: Seq<char>, quota: i64)
    ensures
        make_table().sql
            == "CREATE TABLE IF NOT EXISTS api_keys (key TEXT PRIMARY KEY, usage_count INTEGER DEFAULT 0, max_quota INTEGER DEFAULT 100);"@,
        make_table().values.len() == 0,
        seed(key, quota).sql
            == "INSERT INTO api_keys (key, max_quota) VALUES (?, ?) ON CONFLICT(key) DO NOTHING"@,
        seed(key, quota).values.len() == 2,
        seed(key, quota).values[0] == SqlValueView::Text(key),
        seed(key, quota).values[1] == SqlValueView::Integer(quota),
        insert(key, quota).sql == "INSERT INTO api_keys (key, max_quota) VALUES (?, ?)"@,
        insert(key, quota).values.len() == 2,
        insert(key, quota).values[0] == SqlValueView::Text(key),
        insert(key, quota).values[1] == SqlValueView::Integer(quota),
        charge(key).sql
            == "UPDATE api_keys SET usage_count = usage_count + 1 WHERE key = ? AND usage_count < max_quota RETURNING key"@,
        charge(key).values.len() == 1,
        charge(key).values[0] == SqlValueView::Text(key),
        find(key).sql == "SELECT usage_count, max_quota FROM api_keys WHERE key = ?"@,
        find(key).values.len() == 1,
        find(key).values[0] == SqlValueView::Text(key),
        DEFAULT_KEY@ == "trick-test-key-123"@,
        DEFAULT_QUOTA == 100,
{
}

/// A request is charged for the whole text of its key and for no other, if its key can be
/// read as text; one whose key cannot be, or is not there, is refused with 401.
pub proof fn law_request_is_charged_for_its_own_key(value: Option<Seq<u8>>)
    ensures
        match header_text(value) {
            Some(text) => auth_step(AuthEventView::Arrived(value)) matches AuthActionView::Charge {
                key,
                statement,
            } && key == text && statement == charge(text),
            None => auth_step(AuthEventView::Arrived(value)) matches AuthActionView::Refuse(reply) && says(
                reply,
                401,
                "missing or invalid API key"@,
            ),
        },
{
}

/// A request is let through just if its key could be charged. If not, that same key is
/// looked for: if it is there, the request is over its quota, and if not, it is refused as
/// one without a key. A database that fails lets nothing through.
pub proof fn law_request_is_let_through_once_charged(key: Seq<char>, outcome: QueryOutcome)
    ensures
        auth_step(AuthEventView::Charged { key, outcome }) == AuthActionView::Admit <==> outcome
            == QueryOutcome::Row,
        outcome == QueryOutcome::NoRow ==> auth_step(AuthEventView::Charged { key, outcome })
            == AuthActionView::LookUp(find(key)),
        outcome == QueryOutcome::Failed ==> (auth_step(
            AuthEventView::Charged { key, outcome },
        ) matches AuthActionView::Refuse(reply) && says(reply, 500, "internal error"@)),
        auth_step(AuthEventView::LookedUp(outcome)) matches AuthActionView::Refuse(reply) && match outcome {
            QueryOutcome::Row => says(reply, 429, "quota exceeded"@),
            QueryOutcome::NoRow => says(reply, 401, "missing or invalid API key"@),
            QueryOutcome::Failed => says(reply, 500, "internal error"@),
        },
{
}

/// Where an admin key is configured, that very text and no other hands out keys; only
/// where none is, the default does.
pub proof fn law_configured_admin_key_is_the_only_one(header: Option<Seq<char>>, configured: Seq<char>)
    ensures
        header == Some(expected_admin(Some(configured))) <==> header == Some(configured),
        header == Some(expected_admin(None)) <==> header == Some("secret-admin"@),
{
}

/// A key that is made has its prefix and then a random UUID, all of it.
pub proof fn law_made_key_is_a_prefix_and_a_uuid(key: Seq<char>, uuid: Seq<char>)
    ensures
        key_from(uuid) == "trick-"@ + uuid,
        is_issued_key(key) ==> key.len() == 42 && key.take(6) == "trick-"@ && is_random_uuid(key.skip(6)),
{
    reveal_strlit("trick-");
    if is_issued_key(key) {
        let made = choose|made: Seq<char>| is_random_uuid(made) && key == #[trigger] key_from(made);
        assert(key.take(6) =~= "trick-"@);
        assert(key.skip(6) =~= made);
    }
}

/// A random UUID is 32 hexadecimal digits in lower case, with hyphens after 8, 12, 16 and
/// 20 of them, and marks of its version and variant.
pub proof fn law_uuid_is_made_of_digits_and_hyphens(text: Seq<char>, i: int)
    requires
        is_random_uuid(text),
        0 <= i < text.len(),
    ensures
        text.len() == 36,
        text[i] == '-' <==> i == 8 || i == 13 || i == 18 || i == 23,
        text[i] == '-' || '0' <= text[i] <= '9' || 'a' <= text[i] <= 'f',
        text[14] == '4',
{
}

/// What is stated of statements, events and actions is stated of their own fields, and of
/// a request that arrives, of the first value of its `x-api-key` header.
pub proof fn law_key_checks_are_seen_as_they_are(
    statement: Statement,
    i: int,
    headers: &axum::http::HeaderMap,
    key: String,
    outcome: QueryOutcome,
    action: AuthAction,
)
    ensures
        statement@.sql == statement.sql@,
        statement@.values.len() == statement.values@.len(),
        0 <= i < statement.values@.len() ==> match statement.values@[i] {
            SqlValue::Text(text) => statement@.values[i] == SqlValueView::Text(text@),
            SqlValue::Integer(n) => statement@.values[i] == SqlValueView::Integer(n),
        },
        AuthEvent::Arrived(headers)@ == AuthEventView::Arrived(header_value(*headers, "x-api-key"@)),
        (AuthEvent::Charged { key, outcome })@ == (AuthEventView::Charged { key: key@, outcome }),
        AuthEvent::LookedUp(outcome)@ == AuthEventView::LookedUp(outcome),
        match action {
            AuthAction::Charge { key, statement } => action@ == (AuthActionView::Charge {
                key: key@,
                statement: statement@,
            }),
            AuthAction::LookUp(statement) => action@ == AuthActionView::LookUp(statement@),
            AuthAction::Admit => action@ == AuthActionView::Admit,
            AuthAction::Refuse(reply) => action@ == AuthActionView::Refuse(reply@),
        },
{
}

} // verus!
