//! Per-request options: whether the caches are bypassed.
use crate::text::{contains_run, contains_str};
use vstd::prelude::*;

verus! {

/// What a request asks of the data layer.
#[derive(Debug, Clone, Copy, Default)]
pub struct QueryContext {
    pub bypass_cache: bool,
}

/// The options of a request whose `Cache-Control` header (if readable as
/// text) is `cache_control`: the caches are bypassed when it holds
/// `no-cache`.
pub fn query_context(cache_control: Option<&str>) -> (r: QueryContext)
    ensures
        r.bypass_cache == match cache_control {
            Some(v) => contains_run(v@, "no-cache"@),
            None => false,
        },
{
    let bypass = match cache_control {
        Some(v) => contains_str(v, "no-cache"),
        None => false,
    };
    QueryContext { bypass_cache: bypass }
}

} // verus!
