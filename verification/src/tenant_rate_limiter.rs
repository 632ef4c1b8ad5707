//! Per-tenant fixed-window rate limiter, keyed by the tenant identifier that
//! the PROXY v2 tenant TLV carries.
use std::collections::HashMap;
use vstd::prelude::*;
use vstd::string::*;

use crate::dns::{
    is_refused, unimplemented_nsec, unimplemented_nsec3, AxfrPolicy, LookupControlFlow, LookupError, RequestInfo,
    ResponseCode, ZoneType,
};
use crate::domain::{chars_of, hash_modulus, lower_labels, LowerName, Name};
use crate::window::{
    counts_in, law_each_key_limit_times_in_window, occurrences, take_each, take_one, unix_time_secs,
    window_id, window_of, zero_counts, WindowCounts,
};

verus! {

broadcast use vstd::std_specs::hash::group_hash_axioms;

/// Configuration for a per-tenant rate limiter.
#[derive(Clone, Copy, Debug, PartialEq, Eq, Structural)]
pub struct TenantRateLimiterConfig {
    /// Maximum requests per tenant per window.
    pub requests: u32,
    /// Window size in seconds.
    pub window: u64,
}

/// Default number of requests per tenant and window: 400.
pub fn default_requests() -> (r: u32)
    ensures
        r == 400,
{
    400
}

/// Default window: 60 seconds.
pub fn default_window() -> (r: u64)
    ensures
        r == 60,
{
    60
}

struct TenantCount {
    tenant: String,
    count: u32,
}

/// The count of tenant `k` in a list of (tenant, count) entries: the count of
/// its first entry, 0 without one.
pub open spec fn tenant_count(entries: Seq<(Seq<char>, u32)>, k: Seq<char>) -> nat
    decreases entries.len(),
{
    if entries.len() == 0 {
        0
    } else if entries[0].0 == k {
        entries[0].1 as nat
    } else {
        tenant_count(entries.drop_first(), k)
    }
}

proof fn lemma_count_at_first(entries: Seq<(Seq<char>, u32)>, k: Seq<char>, i: int)
    requires
        0 <= i < entries.len(),
        entries[i].0 == k,
        forall|j: int| 0 <= j < i ==> entries[j].0 != k,
    ensures
        tenant_count(entries, k) == entries[i].1 as nat,
    decreases i,
{
    if i > 0 {
        lemma_count_at_first(entries.drop_first(), k, i - 1);
    }
}

proof fn lemma_count_absent(entries: Seq<(Seq<char>, u32)>, k: Seq<char>)
    requires
        forall|j: int| 0 <= j < entries.len() ==> entries[j].0 != k,
    ensures
        tenant_count(entries, k) == 0,
    decreases entries.len(),
{
    if entries.len() > 0 {
        lemma_count_absent(entries.drop_first(), k);
    }
}

proof fn lemma_count_update_other(
    entries: Seq<(Seq<char>, u32)>,
    i: int,
    v: u32,
    other: Seq<char>,
)
    requires
        0 <= i < entries.len(),
        entries[i].0 != other,
    ensures
        tenant_count(entries.update(i, (entries[i].0, v)), other) == tenant_count(entries, other),
    decreases i,
{
    let updated = entries.update(i, (entries[i].0, v));
    if i == 0 {
        assert(updated.drop_first() =~= entries.drop_first());
    } else {
        assert(updated.drop_first() =~= entries.drop_first().update(i - 1, (entries[i].0, v)));
        lemma_count_update_other(entries.drop_first(), i - 1, v, other);
    }
}

proof fn lemma_count_push(entries: Seq<(Seq<char>, u32)>, k: Seq<char>, v: u32, other: Seq<char>)
    requires
        forall|j: int| 0 <= j < entries.len() ==> entries[j].0 != k,
    ensures
        tenant_count(entries.push((k, v)), other) == if other == k {
            v as nat
        } else {
            tenant_count(entries, other)
        },
    decreases entries.len(),
{
    let pushed = entries.push((k, v));
    if entries.len() == 0 {
        assert(pushed[0] == (k, v));
        assert(pushed.drop_first() =~= Seq::<(Seq<char>, u32)>::empty());
        assert(tenant_count(pushed.drop_first(), other) == 0);
        assert(tenant_count(entries, other) == 0);
    } else {
        assert(pushed[0] == entries[0]);
        assert(entries[0].0 != k);
        assert(pushed.drop_first() =~= entries.drop_first().push((k, v)));
        lemma_count_push(entries.drop_first(), k, v, other);
    }
}

/// What the calls `check_at(tenants[i], nows[i])` on a handler with counting
/// state `m` and configuration `config` do, one after the other (see
/// `check_at`): the final state and whether each call was under the limit.
pub open spec fn check_calls(
    m: WindowCounts<Seq<char>>,
    config: TenantRateLimiterConfig,
    tenants: Seq<Seq<char>>,
    nows: Seq<u64>,
) -> (WindowCounts<Seq<char>>, Seq<bool>) {
    take_each(m, tenants, nows.map_values(|now: u64| window_of(now, config.window)), config.requests)
}

/// One more call after a series of calls is one more `check_at` step, as
/// `check_at` states it: the series of calls is the calls made in turn.
pub proof fn law_check_calls_step(
    m: WindowCounts<Seq<char>>,
    config: TenantRateLimiterConfig,
    tenants: Seq<Seq<char>>,
    nows: Seq<u64>,
    tenant: Seq<char>,
    now: u64,
)
    requires
        nows.len() == tenants.len(),
    ensures
        ({
            let before = check_calls(m, config, tenants, nows);
            let step = take_one(before.0, tenant, window_of(now, config.window), config.requests);
            check_calls(m, config, tenants.push(tenant), nows.push(now)) == (step.0, before.1.push(step.1))
        }),
{
    let g = |now: u64| window_of(now, config.window);
    assert(tenants.push(tenant).drop_last() =~= tenants);
    assert(nows.push(now).map_values(g).take(tenants.len() as int) =~= nows.map_values(g));
}

/// Calls made within one window, with no earlier call in that window: each
/// tenant identifier (compared exactly, case included) gets its first
/// `requests` calls and every later one is refused; calls of other tenants
/// do not count against it.
pub proof fn law_each_tenant_limit_per_window(
    m: WindowCounts<Seq<char>>,
    config: TenantRateLimiterConfig,
    tenants: Seq<Seq<char>>,
    nows: Seq<u64>,
    window_id: u64,
)
    requires
        nows.len() == tenants.len(),
        forall|i: int| 0 <= i < nows.len() ==> #[trigger] window_of(nows[i], config.window) == window_id,
        counts_in(m, window_id) == zero_counts::<Seq<char>>(),
    ensures
        check_calls(m, config, tenants, nows).1.len() == tenants.len(),
        forall|j: int|
            0 <= j < tenants.len() ==> #[trigger] check_calls(m, config, tenants, nows).1[j] == (
            occurrences(tenants.take(j), tenants[j]) < config.requests),
{
    let windows = nows.map_values(|now: u64| window_of(now, config.window));
    assert forall|i: int| 0 <= i < windows.len() implies windows[i] == window_id by {
        assert(window_of(nows[i], config.window) == window_id);
    }
    law_each_key_limit_times_in_window(m, tenants, windows, window_id, config.requests);
}

/// A hash of a tenant identifier: its characters in order.
pub open spec fn text_hash(t: Seq<char>) -> nat
    decreases t.len(),
{
    if t.len() == 0 {
        0
    } else {
        (text_hash(t.drop_last()) * 31 + (t.last() as u32) as nat + 1) % hash_modulus()
    }
}

fn text_hash_exec(t: &Vec<char>) -> (r: u64)
    ensures
        r == text_hash(t@),
{
    let mut h: u64 = 0;
    let mut i: usize = 0;
    proof {
        assert(t@.take(0) =~= Seq::<char>::empty());
    }
    while i < t.len()
        invariant
            i <= t@.len(),
            h == text_hash(t@.take(i as int)),
            h < hash_modulus(),
        decreases t@.len() - i,
    {
        let c: u32 = t[i] as u32;
        proof {
            assert(t@.take(i + 1).drop_last() =~= t@.take(i as int));
        }
        assert(h * 31 + c + 1 < 0x1_0000_0000_0000_0000_0000) by (nonlinear_arith)
            requires
                h < 0x1FFF_FFFF_FFFF_FFFF,
        ;
        let v: u128 = (h as u128) * 31 + c as u128 + 1;
        let m: u128 = 0x1FFF_FFFF_FFFF_FFFF;
        h = (v % m) as u64;
        i = i + 1;
    }
    proof {
        assert(t@.take(i as int) =~= t@);
    }
    h
}

/// Fixed-window per-tenant rate limiter. The counts of the current window
/// are kept one entry per tenant, with an index from each tenant's hash to
/// the positions of its entry.
pub struct TenantRateLimiterZoneHandler {
    origin: LowerName,
    config: TenantRateLimiterConfig,
    window_id: u64,
    counts: Vec<TenantCount>,
    index: HashMap<u64, Vec<usize>>,
}

impl TenantRateLimiterZoneHandler {
    /// The configuration the handler was made with.
    pub closed spec fn spec_config(self) -> TenantRateLimiterConfig {
        self.config
    }

    /// The zone origin.
    pub closed spec fn spec_origin(self) -> Seq<Seq<u8>> {
        self.origin@
    }

    /// The entries name distinct tenants, and the index is sound (each
    /// position in a bucket holds a tenant with that bucket's hash) and
    /// complete (each entry's position is in the bucket of its hash).
    pub closed spec fn wf(self) -> bool {
        &&& forall|i: int, j: int|
            0 <= i < j < self.counts@.len() ==> (#[trigger] self.counts@[i]).tenant@
                != (#[trigger] self.counts@[j]).tenant@
        &&& forall|h: u64, j: int|
            #![trigger self.index@[h]@[j]]
            self.index@.contains_key(h) && 0 <= j < self.index@[h]@.len() ==> {
                &&& self.index@[h]@[j] < self.counts@.len()
                &&& text_hash(self.counts@[self.index@[h]@[j] as int].tenant@) == h
            }
        &&& forall|i: int|
            #![trigger self.counts@[i]]
            0 <= i < self.counts@.len() ==> {
                &&& self.index@.contains_key(text_hash(self.counts@[i].tenant@) as u64)
                &&& self.index@[text_hash(self.counts@[i].tenant@) as u64]@.contains(i as usize)
            }
    }

    closed spec fn entries(self) -> Seq<(Seq<char>, u32)> {
        self.counts@.map_values(|e: TenantCount| (e.tenant@, e.count))
    }

    /// The window the counts are kept for and the count of each tenant.
    pub closed spec fn model(self) -> WindowCounts<Seq<char>> {
        WindowCounts {
            window_id: self.window_id,
            counts: Map::new(|k: Seq<char>| true, |k: Seq<char>| tenant_count(self.entries(), k)),
        }
    }

    /// Create a tenant rate limiter from configuration.
    pub fn try_from_config(origin: Name, config: TenantRateLimiterConfig) -> (r: Result<Self, String>)
        ensures
            r matches Ok(h) && h.wf() && h.spec_config() == config && h.spec_origin() == lower_labels(origin@)
                && h.model().window_id == 0 && h.model().counts == zero_counts::<Seq<char>>(),
    {
        let h = TenantRateLimiterZoneHandler {
            origin: LowerName::new(&origin),
            config,
            window_id: 0,
            counts: Vec::new(),
            index: HashMap::new(),
        };
        assert(h.model().counts =~= zero_counts::<Seq<char>>());
        Ok(h)
    }

    /// Counts a query of tenant `tenant_id` at second `now` (since the Unix
    /// epoch) and says whether it is under the limit.
    pub fn check_at(&mut self, tenant_id: &str, now: u64) -> (r: bool)
        requires
            old(self).wf(),
        ensures
            final(self).wf(),
            final(self).spec_config() == old(self).spec_config(),
            final(self).spec_origin() == old(self).spec_origin(),
            final(self).model() == take_one(
                old(self).model(),
                tenant_id@,
                window_of(now, old(self).spec_config().window),
                old(self).spec_config().requests,
            ).0,
            r == take_one(
                old(self).model(),
                tenant_id@,
                window_of(now, old(self).spec_config().window),
                old(self).spec_config().requests,
            ).1,
    {
        let ghost before = self.model();
        let wid: u64 = window_id(now, self.config.window);
        if self.window_id != wid {
            self.window_id = wid;
            self.counts.clear();
            self.index.clear();
            assert(self.entries() =~= Seq::<(Seq<char>, u32)>::empty());
        }
        let ghost base = counts_in(before, wid);
        assert(self.model().counts =~= base);
        let key = String::from_str(tenant_id);
        let limit: u32 = self.config.requests;
        let chars = chars_of(tenant_id);
        let h: u64 = text_hash_exec(&chars);
        match self.position(h, &key) {
            Some(i) => {
                let c: u32 = self.counts[i].count;
                proof {
                    assert forall|j: int| 0 <= j < i implies self.entries()[j].0 != key@ by {
                        assert(self.counts@[j].tenant@ != self.counts@[i as int].tenant@);
                    }
                    lemma_count_at_first(self.entries(), key@, i as int);
                    assert(c == base[key@]);
                }
                if c >= limit {
                    return false;
                }
                let ghost old_entries = self.entries();
                let ghost old_counts = self.counts@;
                let tenant = self.counts[i].tenant.clone();
                self.counts.set(i, TenantCount { tenant, count: c + 1 });
                proof {
                    assert(self.entries() =~= old_entries.update(i as int, (key@, (c + 1) as u32)));
                    assert forall|k: Seq<char>| k != key@ implies tenant_count(self.entries(), k)
                        == tenant_count(old_entries, k) by {
                        lemma_count_update_other(old_entries, i as int, (c + 1) as u32, k);
                    }
                    lemma_count_at_first(self.entries(), key@, i as int);
                    assert(self.model().counts =~= base.insert(key@, base[key@] + 1));
                    assert forall|k: int| 0 <= k < self.counts@.len() implies #[trigger] self.counts@[k].tenant@
                        == old_counts[k].tenant@ by {}
                    assert forall|k: int, j: int|
                        0 <= k < j < self.counts@.len() implies (#[trigger] self.counts@[k]).tenant@
                        != (#[trigger] self.counts@[j]).tenant@ by {
                        assert(old_counts[k].tenant@ != old_counts[j].tenant@);
                    }
                    assert forall|h2: u64, j: int|
                        #![trigger self.index@[h2]@[j]]
                        self.index@.contains_key(h2) && 0 <= j < self.index@[h2]@.len() implies {
                            &&& self.index@[h2]@[j] < self.counts@.len()
                            &&& text_hash(self.counts@[self.index@[h2]@[j] as int].tenant@) == h2
                        } by {
                        assert(old_counts[self.index@[h2]@[j] as int].tenant@ == self.counts@[self.index@[h2]@[j] as int].tenant@);
                    }
                    assert forall|k: int|
                        #![trigger self.counts@[k]]
                        0 <= k < self.counts@.len() implies {
                            &&& self.index@.contains_key(text_hash(self.counts@[k].tenant@) as u64)
                            &&& self.index@[text_hash(self.counts@[k].tenant@) as u64]@.contains(k as usize)
                        } by {
                        assert(old_counts[k].tenant@ == self.counts@[k].tenant@);
                    }
                }
                true
            },
            None => {
                proof {
                    assert forall|j: int| 0 <= j < self.entries().len() implies self.entries()[j].0 != key@ by {
                        assert(self.counts@[j].tenant@ != key@);
                    }
                    lemma_count_absent(self.entries(), key@);
                }
                if limit == 0 {
                    return false;
                }
                let ghost old_entries = self.entries();
                self.add_entry(h, key);
                proof {
                    assert forall|k: Seq<char>| #[trigger] tenant_count(self.entries(), k) == if k == tenant_id@ {
                        1nat
                    } else {
                        tenant_count(old_entries, k)
                    } by {
                        lemma_count_push(old_entries, tenant_id@, 1u32, k);
                    }
                    assert(self.model().counts =~= base.insert(tenant_id@, base[tenant_id@] + 1));
                }
                true
            },
        }
    }

    /// The position of the entry of tenant `key`, whose hash is `h`.
    fn position(&self, h: u64, key: &String) -> (r: Option<usize>)
        requires
            self.wf(),
            h == text_hash(key@),
        ensures
            match r {
                Some(i) => i < self.counts@.len() && self.counts@[i as int].tenant@ == key@,
                None => forall|j: int| 0 <= j < self.counts@.len() ==> self.counts@[j].tenant@ != key@,
            },
    {
        let count: usize = self.counts.len();
        match self.index.get(&h) {
            None => {
                proof {
                    assert forall|j: int| 0 <= j < self.counts@.len() implies self.counts@[j].tenant@ != key@ by {
                        if self.counts@[j].tenant@ == key@ {
                            assert(self.index@.contains_key(text_hash(self.counts@[j].tenant@) as u64));
                        }
                    }
                }
                None
            },
            Some(bucket) => {
                let mut j: usize = 0;
                while j < bucket.len()
                    invariant
                        self.wf(),
                        count == self.counts@.len(),
                        self.index@.contains_key(h),
                        bucket@ == self.index@[h]@,
                        j <= bucket@.len(),
                        forall|jj: int| 0 <= jj < j ==> self.counts@[bucket@[jj] as int].tenant@ != key@,
                    decreases bucket@.len() - j,
                {
                    let i: usize = bucket[j];
                    assert(self.index@[h]@[j as int] == i);
                    if self.counts[i].tenant == *key {
                        return Some(i);
                    }
                    j = j + 1;
                }
                proof {
                    assert forall|k: int| 0 <= k < self.counts@.len() implies self.counts@[k].tenant@ != key@ by {
                        if self.counts@[k].tenant@ == key@ {
                            let b = self.index@[h]@;
                            assert(self.index@[text_hash(self.counts@[k].tenant@) as u64]@.contains(k as usize));
                            let jj = choose|jj: int| 0 <= jj < b.len() && b[jj] == k as usize;
                            assert((k as usize) as int == k);
                            assert(self.counts@[bucket@[jj] as int].tenant@ != key@);
                        }
                    }
                }
                None
            },
        }
    }

    /// Adds an entry with count 1 for tenant `key`, which has none and whose
    /// hash is `h`.
    fn add_entry(&mut self, h: u64, key: String)
        requires
            old(self).wf(),
            h == text_hash(key@),
            forall|j: int| 0 <= j < old(self).counts@.len() ==> old(self).counts@[j].tenant@ != key@,
        ensures
            final(self).wf(),
            final(self).config == old(self).config,
            final(self).origin == old(self).origin,
            final(self).window_id == old(self).window_id,
            final(self).entries() == old(self).entries().push((key@, 1u32)),
    {
        let ghost before = self.counts@;
        let ghost old_entries = self.entries();
        let ghost old_index = self.index@;
        let ghost k = key@;
        let i: usize = self.counts.len();
        self.counts.push(TenantCount { tenant: key, count: 1 });
        let mut bucket: Vec<usize> = match self.index.remove(&h) {
            Some(b) => b,
            None => Vec::new(),
        };
        let ghost old_bucket = bucket@;
        assert(self.index@ == old_index.remove(h));
        assert(old_index.contains_key(h) ==> old_bucket == old_index[h]@);
        assert(!old_index.contains_key(h) ==> old_bucket == Seq::<usize>::empty());
        bucket.push(i);
        let ghost new_bucket = bucket;
        self.index.insert(h, bucket);
        proof {
            assert(new_bucket@ == old_bucket.push(i));
            assert(self.index@ == old_index.insert(h, new_bucket));
            assert(self.counts@ == before.push(self.counts@[i as int]));
            assert(self.entries() =~= old_entries.push((k, 1u32)));
            assert forall|a: int, b: int|
                0 <= a < b < self.counts@.len() implies (#[trigger] self.counts@[a]).tenant@
                != (#[trigger] self.counts@[b]).tenant@ by {
                if b < i {
                    assert(before[a].tenant@ != before[b].tenant@);
                } else {
                    assert(before[a].tenant@ != k);
                }
            }
            assert forall|h2: u64, j: int|
                #![trigger self.index@[h2]@[j]]
                self.index@.contains_key(h2) && 0 <= j < self.index@[h2]@.len() implies {
                    &&& self.index@[h2]@[j] < self.counts@.len()
                    &&& text_hash(self.counts@[self.index@[h2]@[j] as int].tenant@) == h2
                } by {
                if h2 == h {
                    if j < old_bucket.len() {
                        assert(self.index@[h2]@[j] == old_index[h]@[j]);
                    }
                } else {
                    assert(self.index@[h2] == old_index[h2]);
                }
            }
            assert forall|a: int|
                #![trigger self.counts@[a]]
                0 <= a < self.counts@.len() implies {
                    &&& self.index@.contains_key(text_hash(self.counts@[a].tenant@) as u64)
                    &&& self.index@[text_hash(self.counts@[a].tenant@) as u64]@.contains(a as usize)
                } by {
                let ha = text_hash(self.counts@[a].tenant@) as u64;
                if a < i {
                    assert(self.counts@[a] == before[a]);
                    assert(old_index.contains_key(ha) && old_index[ha]@.contains(a as usize));
                    if ha == h {
                        let jj = choose|jj: int| 0 <= jj < old_bucket.len() && old_bucket[jj] == a as usize;
                        assert(self.index@[ha]@[jj] == a as usize);
                    }
                } else {
                    assert(self.index@[h]@[old_bucket.len() as int] == i);
                }
            }
        }
    }

    /// Counts a query of tenant `tenant_id` now and says whether it is under
    /// the limit. The clock decides the window; whatever it reads, the query
    /// is counted as `check_at` counts it at that second.
    pub fn check(&mut self, tenant_id: &str) -> (r: bool)
        requires
            old(self).wf(),
        ensures
            final(self).wf(),
            final(self).spec_config() == old(self).spec_config(),
            final(self).spec_origin() == old(self).spec_origin(),
            exists|now: u64|
                {
                    let step = take_one(
                        old(self).model(),
                        tenant_id@,
                        #[trigger] window_of(now, old(self).spec_config().window),
                        old(self).spec_config().requests,
                    );
                    final(self).model() == step.0 && r == step.1
                },
    {
        let now: u64 = unix_time_secs();
        self.check_at(tenant_id, now)
    }

    /// The handler's answer to a query: `Skip` without request information,
    /// without a tenant identifier or when the tenant is under the limit, a
    /// refusal otherwise.
    pub fn lookup(&mut self, request_info: Option<&RequestInfo>) -> (r: LookupControlFlow)
        requires
            old(self).wf(),
        ensures
            final(self).wf(),
            final(self).spec_config() == old(self).spec_config(),
            final(self).spec_origin() == old(self).spec_origin(),
            (request_info is None || request_info.unwrap().tenant_id is None) ==> r is Skip
                && final(self).model() == old(self).model(),
            request_info matches Some(info) ==> info.tenant_id matches Some(t) ==> exists|
                now: u64,
            |
                {
                    let step = take_one(
                        old(self).model(),
                        t@,
                        #[trigger] window_of(now, old(self).spec_config().window),
                        old(self).spec_config().requests,
                    );
                    &&& final(self).model() == step.0
                    &&& step.1 ==> r is Skip
                    &&& !step.1 ==> is_refused(r)
                },
    {
        match request_info {
            None => LookupControlFlow::Skip,
            Some(info) => match &info.tenant_id {
                None => LookupControlFlow::Skip,
                Some(tenant_id) => {
                    if self.check(tenant_id.as_str()) {
                        LookupControlFlow::Skip
                    } else {
                        LookupControlFlow::Break(
                            Err(LookupError::ResponseCode(ResponseCode::Refused)),
                        )
                    }
                },
            },
        }
    }

    /// The handler serves an external zone.
    pub fn zone_type(&self) -> (r: ZoneType)
        ensures
            r == ZoneType::External,
    {
        ZoneType::External
    }

    /// The handler denies zone transfers.
    pub fn axfr_policy(&self) -> (r: AxfrPolicy)
        ensures
            r == AxfrPolicy::Deny,
    {
        AxfrPolicy::Deny
    }

    /// The zone origin.
    pub fn origin(&self) -> (r: &LowerName)
        ensures
            r@ == self.spec_origin(),
    {
        &self.origin
    }

    /// The label under which the handler's metrics are reported.
    pub fn metrics_label(&self) -> (r: &'static str)
        ensures
            r@ == "tenant_rate_limiter"@,
    {
        "tenant_rate_limiter"
    }

    /// The handler holds no NSEC records.
    pub fn nsec_records(&self) -> (r: LookupControlFlow)
        ensures
            r matches LookupControlFlow::Continue(Err(LookupError::Io(msg))) && msg@
                == "NSEC records are unimplemented for pipeline handlers"@,
    {
        unimplemented_nsec()
    }

    /// The handler holds no NSEC3 records.
    pub fn nsec3_records(&self) -> (r: LookupControlFlow)
        ensures
            r matches LookupControlFlow::Continue(Err(LookupError::Io(msg))) && msg@
                == "NSEC3 records are unimplemented for pipeline handlers"@,
    {
        unimplemented_nsec3()
    }
}

} // verus!
