//! Cache reconciliation.
//!
//! A background cycle keeps the session cache consistent with the durable
//! store: delete expired sessions there, fetch the surviving tokens, then
//! swap the cache to exactly that set. The store calls happen outside this
//! crate and their results come in as plain values; the swap itself is the
//! atomic [`SessionCache::replace_all`]. A failed fetch changes nothing —
//! stale but safe — and the next cycle retries.

use vstd::prelude::*;

use crate::cache::SessionCache;
use crate::cache::token_set;

verus! {

/// The view of the scheduler's fetch result.
pub open spec fn fetched_view(fetched: Option<Vec<String>>) -> Option<Seq<String>> {
    match fetched {
        Some(tokens) => Some(tokens@),
        None => None,
    }
}

/// The cache contents after one reconciliation attempt: the fetched token
/// set when the fetch succeeded, the prior contents when it failed.
pub open spec fn reconcile_effect(before: Set<Seq<char>>, fetched: Option<Seq<String>>) -> Set<
    Seq<char>,
> {
    match fetched {
        Some(tokens) => token_set(tokens),
        None => before,
    }
}

/// Applies one reconciliation cycle's fetch result to the cache. On success
/// the cache becomes exactly the fetched set — no merge with what it held,
/// no partial state; on failure it is left untouched.
pub fn apply_reconciliation(cache: &mut SessionCache, fetched: Option<Vec<String>>)
    ensures
        final(cache)@ == reconcile_effect(old(cache)@, fetched_view(fetched)),
{
    match fetched {
        Some(tokens) => cache.replace_all(tokens),
        None => {},
    }
}

/// Reconciliation is idempotent: with no intervening session changes the
/// store returns the same token list, and a second cycle leaves the cache
/// exactly where the first cycle put it.
pub proof fn lemma_reconcile_idempotent(before: Set<Seq<char>>, tokens: Seq<String>)
    ensures
        reconcile_effect(reconcile_effect(before, Some(tokens)), Some(tokens))
            == reconcile_effect(before, Some(tokens)),
{
}

/// A failed fetch is harmless: the cache keeps its previous contents.
pub proof fn lemma_failed_fetch_keeps_cache(before: Set<Seq<char>>)
    ensures
        reconcile_effect(before, None) == before,
{
}

} // verus!
