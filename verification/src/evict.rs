//! The eviction rule: an entry whose last visit lies a full expiration
//! window or more in the past is expired and is to be removed by the next
//! sweep; one visited more recently is retained.

use vstd::prelude::*;

verus! {

/// Relies on chrono's `Local::now().timestamp_millis()`: the current instant
/// as epoch milliseconds. Nothing can be promised of a clock reading.
#[verifier::external_body]
fn now_millis() -> (r: i64) {
    chrono::Local::now().timestamp_millis()
}

/// Milliseconds in one minute.
pub open spec fn millis_per_minute() -> int {
    60000
}

/// Whether an entry last visited at `last_visit_time` has expired by `now`,
/// under an expiration window of `expiration_minutes` minutes. Times are
/// epoch milliseconds.
pub open spec fn spec_expired(last_visit_time: i64, now: i64, expiration_minutes: i64) -> bool {
    now - last_visit_time >= expiration_minutes * millis_per_minute()
}

/// Decides the eviction rule exactly, free of overflow: the age
/// `now - last_visit_time` is compared against the window in milliseconds.
pub fn is_expired(last_visit_time: i64, now: i64, expiration_minutes: i64) -> (r: bool)
    ensures
        r == spec_expired(last_visit_time, now, expiration_minutes),
{
    let age: i128 = (now as i128) - (last_visit_time as i128);
    let window: i128 = (expiration_minutes as i128) * 60000;
    age >= window
}

/// What one eviction pass at instant `now` leaves behind: exactly the
/// entries of `pre` that had not expired by `now`, each unchanged.
pub open spec fn sweep_result(
    pre: Map<Seq<u8>, crate::store::EntryView>,
    post: Map<Seq<u8>, crate::store::EntryView>,
    now: i64,
    expiration_minutes: i64,
) -> bool {
    forall|k: Seq<u8>|
        #![auto]
        post.contains_key(k) <==> pre.contains_key(k) && !spec_expired(
            pre[k].last_visit_time,
            now,
            expiration_minutes,
        )
}

/// One firing of the eviction sweep: reads the clock and removes, whole,
/// every entry whose last visit lies a full expiration window or more in the
/// past. Whatever instant the clock returned, no surviving entry is changed
/// and nothing is created; for that instant, exactly the expired entries are
/// gone and exactly the fresh ones retained.
pub fn run_eviction_pass(store: &mut crate::store::CacheModel, expiration_minutes: i64)
    requires
        old(store).wf(),
    ensures
        final(store).wf(),
        forall|k: Seq<u8>| #[trigger] final(store)@.contains_key(k) ==> old(
            store,
        )@.contains_key(k) && final(store)@[k] == old(store)@[k],
        exists|now: i64|
            #[trigger] sweep_result(old(store)@, final(store)@, now, expiration_minutes),
{
    let now = now_millis();
    store.evict_expired(now, expiration_minutes);
    proof {
        assert(sweep_result(old(store)@, store@, now, expiration_minutes));
    }
}

} // verus!
