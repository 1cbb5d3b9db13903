//! How the service is set up where its environment says nothing else.
use crate::text::{join, optional_text};
use vstd::prelude::*;

verus! {

/// The largest body that a request may have, in bytes (500 MB).
pub const MAX_BODY_BYTES: usize = 500 * 1024 * 1024;

/// How long a request may take, in seconds.
pub const REQUEST_TIMEOUT_SECS: u64 = 60;

/// How many connections to the database are kept.
pub const MAX_CONNECTIONS: u32 = 20;

/// The text that is configured, or else the default.
pub open spec fn configured_or(configured: Option<Seq<char>>, default: Seq<char>) -> Seq<char> {
    match configured {
        Some(text) => text,
        None => default,
    }
}

/// The connection string of the database: `DATABASE_URL`, or a file in the working
/// directory.
pub fn database_url(configured: Option<String>) -> (url: String)
    ensures
        url@ == configured_or(optional_text(configured), "sqlite:data.db?mode=rwc"@),
{
    match configured {
        Some(url) => url,
        None => "sqlite:data.db?mode=rwc".to_owned(),
    }
}

/// The address that the service listens on: every interface, at `PORT` or at 3000.
pub fn listen_address(port: Option<String>) -> (address: String)
    ensures
        address@ == "0.0.0.0:"@ + configured_or(optional_text(port), "3000"@),
{
    match port {
        Some(port) => join("0.0.0.0:", port.as_str()),
        None => join("0.0.0.0:", "3000"),
    }
}

/// What is configured counts as it stands, whatever the default is; the default counts
/// only where nothing is configured.
pub proof fn law_configuration_counts_before_the_default(configured: Seq<char>, default: Seq<char>)
    ensures
        configured_or(Some(configured), default) == configured,
        configured_or(None, default) == default,
{
}

/// A request may carry 500 MB and take a minute; 20 connections to the database are kept.
pub proof fn law_service_is_limited()
    ensures
        MAX_BODY_BYTES == 524288000,
        REQUEST_TIMEOUT_SECS == 60,
        MAX_CONNECTIONS == 20,
{
}

} // verus!
