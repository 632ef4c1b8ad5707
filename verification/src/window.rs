//! Fixed-window admission counting, shared by the per-IP and the per-tenant
//! rate limiters: each key may be admitted `limit` times per window, and the
//! counts start over when the window changes.
use vstd::prelude::*;

verus! {

/// The counting state of a fixed-window limiter: the window it counts in and
/// how many requests of each key it admitted in that window.
#[verifier::ext_equal]
#[verifier::reject_recursive_types(K)]
pub struct WindowCounts<K> {
    pub window_id: u64,
    pub counts: Map<K, nat>,
}

/// Every key at zero.
pub open spec fn zero_counts<K>() -> Map<K, nat> {
    Map::new(|k: K| true, |k: K| 0nat)
}

/// The counts that hold in window `window_id`: the stored ones if they were
/// kept for that window, zero for every key otherwise.
pub open spec fn counts_in<K>(m: WindowCounts<K>, window_id: u64) -> Map<K, nat> {
    if m.window_id == window_id {
        m.counts
    } else {
        zero_counts()
    }
}

/// One request of `key` in window `window_id`: admitted while the key's
/// count in that window is below `limit`, which then grows by one; a refusal
/// changes no count.
pub open spec fn take_one<K>(m: WindowCounts<K>, key: K, window_id: u64, limit: u32) -> (
    WindowCounts<K>,
    bool,
) {
    let base = counts_in(m, window_id);
    if base[key] < limit {
        (WindowCounts { window_id, counts: base.insert(key, base[key] + 1) }, true)
    } else {
        (WindowCounts { window_id, counts: base }, false)
    }
}

/// The window that second `now` falls in, for windows of `window` seconds
/// (a window of 0 counts as 1).
pub open spec fn window_of(now: u64, window: u64) -> u64 {
    if window == 0 {
        now
    } else {
        now / window
    }
}

/// The window that second `now` falls in, for windows of `window` seconds
/// (a window of 0 counts as 1).
pub fn window_id(now: u64, window: u64) -> (r: u64)
    ensures
        r == window_of(now, window),
{
    let width: u64 = if window == 0 {
        1
    } else {
        window
    };
    now / width
}

#[verifier::external_type_specification]
#[verifier::external_body]
pub struct ExSystemTime(std::time::SystemTime);

#[verifier::external_type_specification]
#[verifier::external_body]
pub struct ExSystemTimeError(std::time::SystemTimeError);

/// `SystemTime::now`: the current reading of the system clock. Nothing is
/// stated of it: it depends on the clock.
#[verifier::external_body]
fn system_now() -> std::time::SystemTime {
    std::time::SystemTime::now()
}

/// `SystemTime::duration_since` with the Unix epoch as the earlier time: the
/// time elapsed since the epoch, or an error for a time before it. Nothing is
/// stated of the result: the time is opaque here.
#[verifier::external_body]
fn since_unix_epoch(t: std::time::SystemTime) -> Result<std::time::Duration, std::time::SystemTimeError> {
    t.duration_since(std::time::UNIX_EPOCH)
}

/// `Duration::as_secs`: the whole seconds of a duration. Nothing is stated of
/// the result: the duration is opaque here.
#[verifier::external_body]
fn whole_secs(d: &std::time::Duration) -> u64 {
    d.as_secs()
}

/// The current time as whole seconds since the Unix epoch, 0 for a clock set
/// before the epoch.
pub(crate) fn unix_time_secs() -> u64 {
    match since_unix_epoch(system_now()) {
        Ok(d) => whole_secs(&d),
        Err(_) => 0,
    }
}

/// Every second falls in the window that contains it: windows are
/// consecutive runs of `window` seconds from the epoch (a window of 0 counts
/// as 1 second).
pub proof fn law_second_in_its_window(now: u64, window: u64)
    ensures
        window > 0 ==> window_of(now, window) * window <= now < (window_of(now, window) + 1) * window,
        window == 0 ==> window_of(now, window) == now,
{
    if window > 0 {
        vstd::arithmetic::div_mod::lemma_fundamental_div_mod(now as int, window as int);
        assert(window_of(now, window) * window == window * window_of(now, window)) by (nonlinear_arith);
        assert((window_of(now, window) + 1) * window == window * window_of(now, window) + window) by (nonlinear_arith);
    }
}

/// The requests of `keys`, one after the other, all in window `window_id`:
/// the final state and whether each request was admitted.
pub open spec fn take_all<K>(m: WindowCounts<K>, keys: Seq<K>, window_id: u64, limit: u32) -> (
    WindowCounts<K>,
    Seq<bool>,
)
    decreases keys.len(),
{
    if keys.len() == 0 {
        (m, Seq::empty())
    } else {
        let (m1, rs) = take_all(m, keys.drop_last(), window_id, limit);
        let (m2, b) = take_one(m1, keys.last(), window_id, limit);
        (m2, rs.push(b))
    }
}

/// How often `key` occurs in `keys`.
pub open spec fn occurrences<K>(keys: Seq<K>, key: K) -> nat
    decreases keys.len(),
{
    if keys.len() == 0 {
        0
    } else {
        occurrences(keys.drop_last(), key) + if keys.last() == key {
            1nat
        } else {
            0nat
        }
    }
}

proof fn lemma_take_all_counts<K>(m: WindowCounts<K>, keys: Seq<K>, window_id: u64, limit: u32)
    requires
        counts_in(m, window_id) == zero_counts::<K>(),
    ensures
        forall|k: K| #[trigger]
            counts_in(take_all(m, keys, window_id, limit).0, window_id)[k] == if occurrences(
                keys,
                k,
            ) < limit {
                occurrences(keys, k)
            } else {
                limit as nat
            },
        take_all(m, keys, window_id, limit).1.len() == keys.len(),
    decreases keys.len(),
{
    if keys.len() > 0 {
        lemma_take_all_counts(m, keys.drop_last(), window_id, limit);
        let m1 = take_all(m, keys.drop_last(), window_id, limit).0;
        let key = keys.last();
        assert forall|k: K| #[trigger]
            counts_in(take_all(m, keys, window_id, limit).0, window_id)[k] == if occurrences(
                keys,
                k,
            ) < limit {
                occurrences(keys, k)
            } else {
                limit as nat
            } by {
            assert(counts_in(m1, window_id)[k] == if occurrences(keys.drop_last(), k) < limit {
                occurrences(keys.drop_last(), k)
            } else {
                limit as nat
            });
        }
    }
}

/// The requests of `keys`, one after the other, request `i` in window
/// `windows[i]`: the final state and whether each request was admitted.
pub open spec fn take_each<K>(m: WindowCounts<K>, keys: Seq<K>, windows: Seq<u64>, limit: u32) -> (
    WindowCounts<K>,
    Seq<bool>,
)
    decreases keys.len(),
{
    if keys.len() == 0 {
        (m, Seq::empty())
    } else {
        let n = keys.len() - 1;
        let (m1, rs) = take_each(m, keys.drop_last(), windows.take(n), limit);
        let (m2, b) = take_one(m1, keys.last(), windows[n], limit);
        (m2, rs.push(b))
    }
}

proof fn lemma_take_each_in_one_window<K>(
    m: WindowCounts<K>,
    keys: Seq<K>,
    windows: Seq<u64>,
    window_id: u64,
    limit: u32,
)
    requires
        windows.len() == keys.len(),
        forall|i: int| 0 <= i < windows.len() ==> windows[i] == window_id,
    ensures
        take_each(m, keys, windows, limit) == take_all(m, keys, window_id, limit),
    decreases keys.len(),
{
    if keys.len() > 0 {
        let n = keys.len() - 1;
        lemma_take_each_in_one_window(m, keys.drop_last(), windows.take(n), window_id, limit);
    }
}

/// Requests of keys in one window that starts with no counts, each made at
/// its own moment of that window: request `j` is admitted exactly when fewer
/// than `limit` earlier requests carried its key.
pub proof fn law_each_key_limit_times_in_window<K>(
    m: WindowCounts<K>,
    keys: Seq<K>,
    windows: Seq<u64>,
    window_id: u64,
    limit: u32,
)
    requires
        windows.len() == keys.len(),
        forall|i: int| 0 <= i < windows.len() ==> windows[i] == window_id,
        counts_in(m, window_id) == zero_counts::<K>(),
    ensures
        take_each(m, keys, windows, limit).1.len() == keys.len(),
        forall|j: int|
            0 <= j < keys.len() ==> #[trigger] take_each(m, keys, windows, limit).1[j] == (
            occurrences(keys.take(j), keys[j]) < limit),
{
    lemma_take_each_in_one_window(m, keys, windows, window_id, limit);
    law_each_key_limit_times_per_window(m, keys, window_id, limit);
}

/// In one window that starts with no counts, the request at position `j` is
/// admitted exactly when fewer than `limit` earlier requests carried its key:
/// each key is admitted `limit` times, and every further request of it in the
/// window is refused.
pub proof fn law_each_key_limit_times_per_window<K>(
    m: WindowCounts<K>,
    keys: Seq<K>,
    window_id: u64,
    limit: u32,
)
    requires
        counts_in(m, window_id) == zero_counts::<K>(),
    ensures
        take_all(m, keys, window_id, limit).1.len() == keys.len(),
        forall|j: int|
            0 <= j < keys.len() ==> #[trigger] take_all(m, keys, window_id, limit).1[j] == (
            occurrences(keys.take(j), keys[j]) < limit),
    decreases keys.len(),
{
    lemma_take_all_counts(m, keys, window_id, limit);
    if keys.len() > 0 {
        let prefix = keys.drop_last();
        law_each_key_limit_times_per_window(m, prefix, window_id, limit);
        lemma_take_all_counts(m, prefix, window_id, limit);
        assert forall|j: int| 0 <= j < keys.len() implies #[trigger] take_all(
            m,
            keys,
            window_id,
            limit,
        ).1[j] == (occurrences(keys.take(j), keys[j]) < limit) by {
            if j < keys.len() - 1 {
                assert(keys.take(j) =~= prefix.take(j));
                assert(take_all(m, prefix, window_id, limit).1[j] == (occurrences(
                    prefix.take(j),
                    prefix[j],
                ) < limit));
            } else {
                assert(keys.take(j) =~= prefix);
            }
        }
    }
}

/// A request in a window other than the one the counts were kept for is
/// admitted, whatever was refused before, as long as the limit is not zero.
pub proof fn law_new_window_starts_over<K>(m: WindowCounts<K>, key: K, window_id: u64, limit: u32)
    requires
        m.window_id != window_id,
        limit > 0,
    ensures
        take_one(m, key, window_id, limit).1,
        take_one(m, key, window_id, limit).0.counts == zero_counts::<K>().insert(key, 1),
{
}

} // verus!
