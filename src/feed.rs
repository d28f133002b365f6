//! Decisions around fetching the pool catalog: where to fetch it from and
//! which answers count as success.
use crate::error::AgentError;
use vstd::prelude::*;

verus! {

/// The public yields endpoint used when none is configured.
pub const DEFAULT_POOLS_URL: &'static str = "https://yields.llama.fi/pools";

/// The endpoint to fetch: the configured one if any, else the public default.
pub fn pools_endpoint(configured: Option<String>) -> (r: String)
    ensures
        configured is Some ==> r == configured->Some_0,
        configured is None ==> r@ == DEFAULT_POOLS_URL@,
{
    match configured {
        Some(url) => url,
        None => String::from_str(DEFAULT_POOLS_URL),
    }
}

/// Accepts a 2xx HTTP status; any other status is a `Status` error carrying it.
pub fn check_http_status(code: u16) -> (r: Result<(), AgentError>)
    ensures
        200 <= code < 300 ==> r == Ok::<(), AgentError>(()),
        !(200 <= code < 300) ==> r == Err::<(), AgentError>(AgentError::Status(code)),
{
    if 200 <= code && code < 300 {
        Ok(())
    } else {
        Err(AgentError::Status(code))
    }
}

} // verus!
