//! What the checks of keys add up to. The table of keys is seen here as a map from keys
//! to their use, and each statement by what it does to that map; on that account this
//! module states what holds of requests one after the other.
use crate::headers::header_text;
use crate::usage::{
    auth_step, find, insert, make_table, no_key, over_quota, seed, AuthActionView, AuthEventView, QueryOutcome,
    StatementView, CHARGE_KEY, CREATE_TABLE, DEFAULT_KEY, DEFAULT_QUOTA, FIND_KEY,
    INSERT_KEY, SEED_KEY,
};
use vstd::prelude::*;

verus! {

/// How often a key was used, and how often it may be.
pub struct KeyUse {
    pub used: int,
    pub quota: int,
}

/// Whether one more use of a key can be counted.
pub open spec fn below_quota(table: Map<Seq<char>, KeyUse>, key: Seq<char>) -> bool {
    table.contains_key(key) && table[key].used < table[key].quota
}

/// The table with one more use of a key.
pub open spec fn used_once_more(table: Map<Seq<char>, KeyUse>, key: Seq<char>) -> Map<Seq<char>, KeyUse> {
    table.insert(key, KeyUse { used: table[key].used + 1, quota: table[key].quota })
}

/// The table after a statement was carried out at once, and what came of it.
pub open spec fn carried_out(table: Map<Seq<char>, KeyUse>, statement: StatementView) -> (
    Map<Seq<char>, KeyUse>,
    QueryOutcome,
) {
    let key = statement.values[0]->Text_0;
    let quota = statement.values[1]->Integer_0 as int;
    if statement.sql == CHARGE_KEY@ {
        if below_quota(table, key) {
            (used_once_more(table, key), QueryOutcome::Row)
        } else {
            (table, QueryOutcome::NoRow)
        }
    } else if statement.sql == FIND_KEY@ {
        (table, if table.contains_key(key) { QueryOutcome::Row } else { QueryOutcome::NoRow })
    } else if statement.sql == INSERT_KEY@ {
        if table.contains_key(key) {
            (table, QueryOutcome::Failed)
        } else {
            (table.insert(key, KeyUse { used: 0, quota }), QueryOutcome::NoRow)
        }
    } else if statement.sql == SEED_KEY@ {
        if table.contains_key(key) {
            (table, QueryOutcome::NoRow)
        } else {
            (table.insert(key, KeyUse { used: 0, quota }), QueryOutcome::NoRow)
        }
    } else if statement.sql == CREATE_TABLE@ {
        (table, QueryOutcome::NoRow)
    } else {
        (table, QueryOutcome::Failed)
    }
}

/// The statements are told apart by their texts.
proof fn lemma_statements_differ()
    ensures
        FIND_KEY@ != CHARGE_KEY@,
        INSERT_KEY@ != CHARGE_KEY@,
        INSERT_KEY@ != FIND_KEY@,
        SEED_KEY@ != CHARGE_KEY@,
        SEED_KEY@ != FIND_KEY@,
        SEED_KEY@ != INSERT_KEY@,
        CREATE_TABLE@ != CHARGE_KEY@,
        CREATE_TABLE@ != FIND_KEY@,
        CREATE_TABLE@ != INSERT_KEY@,
        CREATE_TABLE@ != SEED_KEY@,
{
    reveal_strlit(
        "CREATE TABLE IF NOT EXISTS api_keys (key TEXT PRIMARY KEY, usage_count INTEGER DEFAULT 0, max_quota INTEGER DEFAULT 100);",
    );
    reveal_strlit("INSERT INTO api_keys (key, max_quota) VALUES (?, ?) ON CONFLICT(key) DO NOTHING");
    reveal_strlit("INSERT INTO api_keys (key, max_quota) VALUES (?, ?)");
    reveal_strlit(
        "UPDATE api_keys SET usage_count = usage_count + 1 WHERE key = ? AND usage_count < max_quota RETURNING key",
    );
    reveal_strlit("SELECT usage_count, max_quota FROM api_keys WHERE key = ?");
    assert(CREATE_TABLE@[0] == 'C');
    assert(SEED_KEY@[0] == 'I' && SEED_KEY@.len() > 60);
    assert(INSERT_KEY@[0] == 'I' && INSERT_KEY@.len() < 60);
    assert(CHARGE_KEY@[0] == 'U');
    assert(FIND_KEY@[0] == 'S');
}

/// The check of the key of a request, from its arrival to the decision: the table
/// afterwards, and the decision. `value` is the value of the `x-api-key` header.
pub open spec fn checked(table: Map<Seq<char>, KeyUse>, value: Option<Seq<u8>>) -> (
    Map<Seq<char>, KeyUse>,
    AuthActionView,
) {
    match auth_step(AuthEventView::Arrived(value)) {
        AuthActionView::Charge { key, statement } => {
            let (charged, outcome) = carried_out(table, statement);
            match auth_step(AuthEventView::Charged { key, outcome }) {
                AuthActionView::LookUp(statement) => {
                    let (found, outcome) = carried_out(charged, statement);
                    (found, auth_step(AuthEventView::LookedUp(outcome)))
                },
                decision => (charged, decision),
            }
        },
        decision => (table, decision),
    }
}

/// A request is let through exactly when its key is there and below its quota; one with
/// a key at its quota is answered with 429, and one with no key or an unknown key with
/// 401. Only a request that is let through is counted, and only for its own key.
pub proof fn law_requests_are_answered_by_their_key(table: Map<Seq<char>, KeyUse>, value: Option<Seq<u8>>)
    ensures
        match header_text(value) {
            Some(key) => if below_quota(table, key) {
                checked(table, value) == (used_once_more(table, key), AuthActionView::Admit)
            } else if table.contains_key(key) {
                checked(table, value) == (table, AuthActionView::Refuse(over_quota()))
            } else {
                checked(table, value) == (table, AuthActionView::Refuse(no_key()))
            },
            None => checked(table, value) == (table, AuthActionView::Refuse(no_key())),
        },
{
    lemma_statements_differ();
}

/// Whether no key was used more often than it may be. A key may have a quota below zero,
/// and is then not used at all.
pub open spec fn within_quotas(table: Map<Seq<char>, KeyUse>) -> bool {
    forall|key: Seq<char>| #[trigger]
        table.contains_key(key) ==> table[key].used <= table[key].quota || table[key].used == 0
}

/// No check takes a key over its quota.
pub proof fn law_no_key_passes_its_quota(table: Map<Seq<char>, KeyUse>, value: Option<Seq<u8>>)
    requires
        within_quotas(table),
    ensures
        within_quotas(checked(table, value).0),
{
    law_requests_are_answered_by_their_key(table, value);
}

/// The table after requests that come one after the other.
pub open spec fn table_after(table: Map<Seq<char>, KeyUse>, requests: Seq<Option<Seq<u8>>>) -> Map<
    Seq<char>,
    KeyUse,
>
    decreases requests.len(),
{
    if requests.len() == 0 {
        table
    } else {
        checked(table_after(table, requests.drop_last()), requests.last()).0
    }
}

/// How many of the requests come with this key.
pub open spec fn requests_with(requests: Seq<Option<Seq<u8>>>, key: Seq<char>) -> nat
    decreases requests.len(),
{
    if requests.len() == 0 {
        0
    } else {
        requests_with(requests.drop_last(), key) + if header_text(requests.last()) == Some(key) {
            1nat
        } else {
            0nat
        }
    }
}

/// How many of the requests that come with this key are let through.
pub open spec fn admitted_with(
    table: Map<Seq<char>, KeyUse>,
    requests: Seq<Option<Seq<u8>>>,
    key: Seq<char>,
) -> nat
    decreases requests.len(),
{
    if requests.len() == 0 {
        0
    } else {
        let before = requests.drop_last();
        admitted_with(table, before, key) + if header_text(requests.last()) == Some(key) && checked(
            table_after(table, before),
            requests.last(),
        ).1 == AuthActionView::Admit {
            1nat
        } else {
            0nat
        }
    }
}

/// How many more requests a key is good for.
pub open spec fn left_of_quota(table: Map<Seq<char>, KeyUse>, key: Seq<char>) -> nat {
    if table[key].used < table[key].quota {
        (table[key].quota - table[key].used) as nat
    } else {
        0
    }
}

/// Of the requests with a key, as many are let through as its quota leaves and no more;
/// its use is counted up by just that number. Requests with other keys make no
/// difference.
pub proof fn law_quota_is_what_a_key_is_good_for(
    table: Map<Seq<char>, KeyUse>,
    requests: Seq<Option<Seq<u8>>>,
    key: Seq<char>,
)
    requires
        table.contains_key(key),
    ensures
        admitted_with(table, requests, key) == if requests_with(requests, key) <= left_of_quota(table, key) {
            requests_with(requests, key)
        } else {
            left_of_quota(table, key)
        },
        table_after(table, requests).contains_key(key),
        table_after(table, requests)[key] == (KeyUse {
            used: table[key].used + admitted_with(table, requests, key),
            quota: table[key].quota,
        }),
    decreases requests.len(),
{
    if requests.len() > 0 {
        let before = requests.drop_last();
        law_quota_is_what_a_key_is_good_for(table, before, key);
        law_requests_are_answered_by_their_key(table_after(table, before), requests.last());
    }
}

/// A key that is not in the table is never let through, and leaves no trace.
pub proof fn law_unknown_key_is_never_admitted(
    table: Map<Seq<char>, KeyUse>,
    requests: Seq<Option<Seq<u8>>>,
    key: Seq<char>,
)
    requires
        !table.contains_key(key),
    ensures
        admitted_with(table, requests, key) == 0,
        !table_after(table, requests).contains_key(key),
    decreases requests.len(),
{
    if requests.len() > 0 {
        let before = requests.drop_last();
        law_unknown_key_is_never_admitted(table, before, key);
        law_requests_are_answered_by_their_key(table_after(table, before), requests.last());
    }
}

/// The refusal of a request is the same whatever other requests come between the
/// statement that could not charge its key and the one that looks for it.
pub proof fn law_refusal_does_not_depend_on_other_requests(
    table: Map<Seq<char>, KeyUse>,
    key: Seq<char>,
    requests: Seq<Option<Seq<u8>>>,
)
    requires
        !below_quota(table, key),
    ensures
        auth_step(
            AuthEventView::LookedUp(carried_out(table_after(table, requests), find(key)).1),
        ) == if table.contains_key(key) {
            AuthActionView::Refuse(over_quota())
        } else {
            AuthActionView::Refuse(no_key())
        },
{
    lemma_statements_differ();
    if table.contains_key(key) {
        law_quota_is_what_a_key_is_good_for(table, requests, key);
    } else {
        law_unknown_key_is_never_admitted(table, requests, key);
    }
}

/// A key that was just made is good for as many requests as its quota says, and making
/// it changes no other key. A key that is there already cannot be made again.
pub proof fn law_new_key_is_good_for_its_quota(
    table: Map<Seq<char>, KeyUse>,
    key: Seq<char>,
    quota: i64,
    requests: Seq<Option<Seq<u8>>>,
)
    ensures
        table.contains_key(key) ==> carried_out(table, insert(key, quota)) == (table, QueryOutcome::Failed),
        !table.contains_key(key) ==> {
            let (made, outcome) = carried_out(table, insert(key, quota));
            let good_for = if quota > 0 { quota as nat } else { 0 };
            &&& outcome != QueryOutcome::Failed
            &&& made.remove(key) == table
            &&& admitted_with(made, requests, key) == if requests_with(requests, key) <= good_for {
                requests_with(requests, key)
            } else {
                good_for
            }
        },
{
    lemma_statements_differ();
    if !table.contains_key(key) {
        let made = carried_out(table, insert(key, quota)).0;
        assert(made == table.insert(key, KeyUse { used: 0, quota: quota as int }));
        assert(made.remove(key) =~= table);
        law_quota_is_what_a_key_is_good_for(made, requests, key);
    }
}

/// The table after the database was prepared.
pub open spec fn prepared(table: Map<Seq<char>, KeyUse>) -> Map<Seq<char>, KeyUse> {
    carried_out(carried_out(table, make_table()).0, seed(DEFAULT_KEY@, DEFAULT_QUOTA)).0
}

/// Preparing the database keeps every key and its use, so that they last over restarts;
/// afterwards the default key is there. Preparing it again changes nothing.
pub proof fn law_setup_keeps_what_is_there(table: Map<Seq<char>, KeyUse>)
    ensures
        forall|key: Seq<char>| #[trigger]
            table.contains_key(key) ==> prepared(table).contains_key(key) && prepared(table)[key] == table[key],
        prepared(table).contains_key(DEFAULT_KEY@),
        prepared(prepared(table)) == prepared(table),
{
    lemma_statements_differ();
}

} // verus!
