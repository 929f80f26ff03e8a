//! Laws of the store model: what the contracts of `set`, `get`, `delete`
//! and `sweep` jointly guarantee, stated once over the model and proved.

use vstd::prelude::*;
use crate::store::{EntryModel, is_expired, expiry, swept};

verus! {

/// Setting a key without a time-to-live and reading it at any later time
/// finds the key live, holding exactly the value that was set: `get`
/// returns it unchanged.
pub proof fn law_set_then_get(
    m: Map<Seq<char>, EntryModel>,
    k: Seq<char>,
    v: Seq<char>,
    later: u64,
)
    ensures
        ({
            let m1 = m.insert(k, EntryModel { value: v, expires_at: None });
            &&& m1.contains_key(k)
            &&& !is_expired(m1[k], later)
            &&& m1[k].value == v
        }),
{
}

/// Deleting a key after setting it leaves the key absent, so a subsequent
/// `get` reports not-found.
pub proof fn law_set_then_delete_then_get(
    m: Map<Seq<char>, EntryModel>,
    k: Seq<char>,
    v: Seq<char>,
    e: Option<u64>,
)
    ensures
        !m.insert(k, EntryModel { value: v, expires_at: e }).remove(k).contains_key(k),
{
}

/// Setting a key whose expiration is not in the future — a zero
/// time-to-live, or one that ends at or before the read — leaves an entry
/// that every `get` from that moment on reports expired (and removes).
pub proof fn law_immediate_expiry(
    m: Map<Seq<char>, EntryModel>,
    k: Seq<char>,
    v: Seq<char>,
    now: u64,
    ttl: u64,
    read_at: u64,
)
    requires
        now + ttl <= read_at,
    ensures
        ({
            let m1 = m.insert(k, EntryModel { value: v, expires_at: Some(expiry(now, ttl)) });
            &&& m1.contains_key(k)
            &&& is_expired(m1[k], read_at)
        }),
{
}

/// Deleting an absent key reports not-found and changes nothing, so
/// repeating it reports not-found again, never an error: `delete` reports
/// a removal exactly when a live entry was present, and an expired entry
/// counts as absent.
pub proof fn law_delete_absent(m: Map<Seq<char>, EntryModel>, k: Seq<char>)
    requires
        !m.contains_key(k),
    ensures
        m.remove(k) == m,
        !m.remove(k).contains_key(k),
{
    assert(m.remove(k) =~= m);
}

/// Expiration is monotone: once an entry's expiration instant has been
/// reached, it stays expired at every later time, so `get` reports
/// not-found from then on, and the sweep removes it.
pub proof fn law_expiry_monotone(
    m: Map<Seq<char>, EntryModel>,
    k: Seq<char>,
    deadline: u64,
    t: u64,
)
    requires
        m.contains_key(k),
        m[k].expires_at == Some(deadline),
        deadline <= t,
    ensures
        is_expired(m[k], t),
        !swept(m, t).contains_key(k),
{
}

/// Entries still live at the sweep instant survive the sweep unchanged.
pub proof fn law_sweep_keeps_live(m: Map<Seq<char>, EntryModel>, k: Seq<char>, t: u64)
    requires
        m.contains_key(k),
        !is_expired(m[k], t),
    ensures
        swept(m, t).contains_key(k),
        swept(m, t)[k] == m[k],
{
}

/// Each `set` replaces the whole entry atomically in the model, so after
/// racing `set`s on one key — serialized in either order by the store's
/// exclusive lock — the store holds exactly one of the written values,
/// entirely.
pub proof fn law_last_set_wins(
    m: Map<Seq<char>, EntryModel>,
    k: Seq<char>,
    e1: EntryModel,
    e2: EntryModel,
)
    ensures
        m.insert(k, e1).insert(k, e2)[k] == e2,
        m.insert(k, e2).insert(k, e1)[k] == e1,
        m.insert(k, e1).insert(k, e2) == m.insert(k, e2),
{
    assert(m.insert(k, e1).insert(k, e2) =~= m.insert(k, e2));
}

} // verus!
