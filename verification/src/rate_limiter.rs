//! Per-client-IP fixed-window rate limiter.
//!
//! Clients are bucketed by an address prefix (IPv4 /`prefix4`, IPv6
//! /`prefix6`); each bucket may send `requests` queries per window of
//! `window` seconds. Queries under the limit pass to the next handler
//! (`Skip`); the others are refused.
use std::collections::HashMap;
use vstd::prelude::*;
use vstd::arithmetic::power2::*;
use vstd::arithmetic::div_mod::*;
use vstd::string::*;

use crate::dns::{
    is_refused, unimplemented_nsec, unimplemented_nsec3, AxfrPolicy, LookupControlFlow, LookupError, RequestInfo,
    ResponseCode, ZoneType,
};
use crate::domain::{lower_labels, LowerName, Name};
use crate::proxy_protocol::{lemma_pow2_128, IpAddress};
use crate::window::{
    counts_in, law_each_key_limit_times_in_window, occurrences, take_each, take_one, unix_time_secs,
    window_id, window_of, zero_counts, WindowCounts,
};

verus! {

broadcast use vstd::std_specs::hash::group_hash_axioms;

/// Configuration for a per-IP rate limiter.
#[derive(Clone, Copy, Debug, PartialEq, Eq, Structural)]
pub struct RateLimiterConfig {
    /// Maximum requests allowed per window per client IP.
    pub requests: u32,
    /// Window size in seconds.
    pub window: u64,
    /// IPv4 prefix length for bucketing (default /32).
    pub prefix4: u8,
    /// IPv6 prefix length for bucketing (default /128).
    pub prefix6: u8,
}

/// Default number of requests per window: 500.
pub fn default_requests() -> (r: u32)
    ensures
        r == 500,
{
    500
}

/// Default window: 60 seconds.
pub fn default_window() -> (r: u64)
    ensures
        r == 60,
{
    60
}

/// Default IPv4 prefix: /32, one bucket per address.
pub fn default_prefix4() -> (r: u8)
    ensures
        r == 32,
{
    32
}

/// Default IPv6 prefix: /128, one bucket per address.
pub fn default_prefix6() -> (r: u8)
    ensures
        r == 128,
{
    128
}

/// The number of low bits that a prefix of `prefix` bits clears in a
/// `width`-bit address.
pub open spec fn bucket_shift(width: nat, prefix: nat) -> nat {
    if prefix >= width {
        0
    } else {
        (width - prefix) as nat
    }
}

/// The bucket of a `width`-bit address `x` for a prefix of `prefix` bits:
/// the address with all bits after the prefix cleared.
pub open spec fn prefix_bucket(x: nat, width: nat, prefix: nat) -> nat {
    let d = pow2(bucket_shift(width, prefix));
    (x / d) * d
}

/// The bucket of an address: IPv4 by its first `prefix4` bits, IPv6 by its
/// first `prefix6` bits.
pub open spec fn masked_spec(ip: IpAddress, prefix4: u8, prefix6: u8) -> IpAddress {
    match ip {
        IpAddress::V4(a) => IpAddress::V4(prefix_bucket(a as nat, 32, prefix4 as nat) as u32),
        IpAddress::V6(a) => IpAddress::V6(prefix_bucket(a as nat, 128, prefix6 as nat) as u128),
    }
}

fn pow2_u128(e: u32) -> (r: u128)
    requires
        e < 128,
    ensures
        r == pow2(e as nat),
{
    let mut r: u128 = 1;
    let mut i: u32 = 0;
    proof {
        lemma2_to64();
    }
    while i < e
        invariant
            i <= e,
            e < 128,
            r == pow2(i as nat),
        decreases e - i,
    {
        proof {
            lemma_pow2_unfold((i + 1) as nat);
            lemma_pow2_strictly_increases((i + 1) as nat, 128);
            lemma_pow2_128();
        }
        r = r * 2;
        i = i + 1;
    }
    r
}

/// The bucket of a `width`-bit address (`width` is 32 or 128).
fn bucket(x: u128, width: u32, prefix: u8) -> (r: u128)
    requires
        width == 32 || width == 128,
        x < pow2(width as nat),
    ensures
        r == prefix_bucket(x as nat, width as nat, prefix as nat),
        r <= x,
{
    let shift: u32 = if prefix as u32 >= width {
        0
    } else {
        width - prefix as u32
    };
    if shift == 128 {
        proof {
            lemma_pow2_pos(128);
            lemma_basic_div(x as int, pow2(128) as int);
        }
        return 0;
    }
    let d: u128 = pow2_u128(shift);
    proof {
        lemma_pow2_pos(shift as nat);
        lemma_fundamental_div_mod(x as int, d as int);
        lemma_remainder(x as int, d as int);
        assert((x / d) * d == d * (x / d)) by (nonlinear_arith);
    }
    (x / d) * d
}

impl RateLimiterZoneHandler {
    /// The bucket that a client address counts in.
    pub fn masked_ip(&self, ip: IpAddress) -> (r: IpAddress)
        ensures
            r == masked_spec(ip, self.spec_config().prefix4, self.spec_config().prefix6),
    {
        match ip {
            IpAddress::V4(a) => {
                proof {
                    lemma2_to64();
                }
                let b: u128 = bucket(a as u128, 32, self.config.prefix4);
                IpAddress::V4(b as u32)
            },
            IpAddress::V6(a) => {
                proof {
                    lemma_pow2_128();
                }
                IpAddress::V6(bucket(a, 128, self.config.prefix6))
            },
        }
    }
}

/// Bucketing keeps an address's bucket: the bucket of a bucket is itself.
pub proof fn law_bucket_is_stable(x: nat, width: nat, prefix: nat)
    ensures
        prefix_bucket(prefix_bucket(x, width, prefix), width, prefix) == prefix_bucket(
            x,
            width,
            prefix,
        ),
{
    let d = pow2(bucket_shift(width, prefix));
    lemma_pow2_pos(bucket_shift(width, prefix));
    lemma_div_by_multiple((x / d) as int, d as int);
}

/// Two addresses share a bucket exactly when they agree on their prefix: the
/// address divided by 2 to the number of bits after the prefix.
pub proof fn law_same_bucket_iff_same_prefix(x: nat, y: nat, width: nat, prefix: nat)
    ensures
        (prefix_bucket(x, width, prefix) == prefix_bucket(y, width, prefix)) <==> (x / pow2(
            bucket_shift(width, prefix),
        ) == y / pow2(bucket_shift(width, prefix))),
{
    let d = pow2(bucket_shift(width, prefix));
    lemma_pow2_pos(bucket_shift(width, prefix));
    if (x / d) * d == (y / d) * d {
        lemma_div_by_multiple((x / d) as int, d as int);
        lemma_div_by_multiple((y / d) as int, d as int);
    }
}

/// A prefix as long as the address keeps every address in a bucket of its own.
pub proof fn law_full_prefix_keeps_address(x: nat, width: nat, prefix: nat)
    requires
        prefix >= width,
    ensures
        prefix_bucket(x, width, prefix) == x,
{
    lemma2_to64();
    assert(bucket_shift(width, prefix) == 0);
    assert((x / 1) * 1 == x) by (nonlinear_arith);
}

/// For a prefix shorter than the address, the bucket keeps exactly the top
/// `prefix` bits of the address and clears the other `width - prefix`; a
/// prefix as long as the address keeps it whole. Two addresses then share a
/// bucket exactly when they agree on those top bits.
pub proof fn law_bucket_keeps_top_bits(x: nat, y: nat, width: nat, prefix: nat)
    ensures
        prefix < width ==> prefix_bucket(x, width, prefix) == x - x % pow2((width - prefix) as nat),
        prefix >= width ==> prefix_bucket(x, width, prefix) == x,
        prefix < width ==> ((prefix_bucket(x, width, prefix) == prefix_bucket(y, width, prefix)) <==> (x
            / pow2((width - prefix) as nat) == y / pow2((width - prefix) as nat))),
{
    let d = pow2(bucket_shift(width, prefix));
    lemma_pow2_pos(bucket_shift(width, prefix));
    lemma_fundamental_div_mod(x as int, d as int);
    assert((x / d) * d == d * (x / d)) by (nonlinear_arith);
    if prefix >= width {
        law_full_prefix_keeps_address(x, width, prefix);
    }
    law_same_bucket_iff_same_prefix(x, y, width, prefix);
}

/// The bucket of a client address: for a prefix shorter than the address,
/// the address with its low `32 - prefix4` (IPv4) or `128 - prefix6` (IPv6)
/// bits cleared; otherwise the address itself.
pub proof fn law_masked_address(ip: IpAddress, prefix4: u8, prefix6: u8)
    ensures
        ip matches IpAddress::V4(a) ==> masked_spec(ip, prefix4, prefix6) == IpAddress::V4(
            if prefix4 < 32 {
                (a as nat - (a as nat) % pow2((32 - prefix4) as nat)) as u32
            } else {
                a
            },
        ),
        ip matches IpAddress::V6(a) ==> masked_spec(ip, prefix4, prefix6) == IpAddress::V6(
            if prefix6 < 128 {
                (a as nat - (a as nat) % pow2((128 - prefix6) as nat)) as u128
            } else {
                a
            },
        ),
{
    match ip {
        IpAddress::V4(a) => {
            law_bucket_keeps_top_bits(a as nat, 0, 32, prefix4 as nat);
        },
        IpAddress::V6(a) => {
            law_bucket_keeps_top_bits(a as nat, 0, 128, prefix6 as nat);
        },
    }
}

/// What the calls `check_at(ips[i], nows[i])` on a handler with counting
/// state `m` and configuration `config` do, one after the other (see
/// `check_at`): the final state and whether each call was under the limit.
pub open spec fn check_calls(
    m: WindowCounts<IpAddress>,
    config: RateLimiterConfig,
    ips: Seq<IpAddress>,
    nows: Seq<u64>,
) -> (WindowCounts<IpAddress>, Seq<bool>) {
    take_each(
        m,
        ips.map_values(|ip: IpAddress| masked_spec(ip, config.prefix4, config.prefix6)),
        nows.map_values(|now: u64| window_of(now, config.window)),
        config.requests,
    )
}

/// One more call after a series of calls is one more `check_at` step, as
/// `check_at` states it: the series of calls is the calls made in turn.
pub proof fn law_check_calls_step(
    m: WindowCounts<IpAddress>,
    config: RateLimiterConfig,
    ips: Seq<IpAddress>,
    nows: Seq<u64>,
    ip: IpAddress,
    now: u64,
)
    requires
        nows.len() == ips.len(),
    ensures
        ({
            let before = check_calls(m, config, ips, nows);
            let step = take_one(
                before.0,
                masked_spec(ip, config.prefix4, config.prefix6),
                window_of(now, config.window),
                config.requests,
            );
            check_calls(m, config, ips.push(ip), nows.push(now)) == (step.0, before.1.push(step.1))
        }),
{
    let f = |ip: IpAddress| masked_spec(ip, config.prefix4, config.prefix6);
    let g = |now: u64| window_of(now, config.window);
    assert(ips.push(ip).map_values(f).drop_last() =~= ips.map_values(f));
    assert(nows.push(now).map_values(g).take(ips.len() as int) =~= nows.map_values(g));
}

/// Calls made within one window, with no earlier call in that window: each
/// client bucket gets its first `requests` calls and every later one is
/// refused; calls from other buckets do not count against it.
pub proof fn law_each_bucket_limit_per_window(
    m: WindowCounts<IpAddress>,
    config: RateLimiterConfig,
    ips: Seq<IpAddress>,
    nows: Seq<u64>,
    window_id: u64,
)
    requires
        nows.len() == ips.len(),
        forall|i: int| 0 <= i < nows.len() ==> #[trigger] window_of(nows[i], config.window) == window_id,
        counts_in(m, window_id) == zero_counts::<IpAddress>(),
    ensures
        check_calls(m, config, ips, nows).1.len() == ips.len(),
        forall|j: int|
            0 <= j < ips.len() ==> #[trigger] check_calls(m, config, ips, nows).1[j] == (occurrences(
                ips.map_values(|ip: IpAddress| masked_spec(ip, config.prefix4, config.prefix6)).take(j),
                masked_spec(ips[j], config.prefix4, config.prefix6),
            ) < config.requests),
{
    let keys = ips.map_values(|ip: IpAddress| masked_spec(ip, config.prefix4, config.prefix6));
    let windows = nows.map_values(|now: u64| window_of(now, config.window));
    assert forall|i: int| 0 <= i < windows.len() implies windows[i] == window_id by {
        assert(window_of(nows[i], config.window) == window_id);
    }
    law_each_key_limit_times_in_window(m, keys, windows, window_id, config.requests);
    assert forall|j: int| 0 <= j < ips.len() implies #[trigger] check_calls(m, config, ips, nows).1[j]
        == (occurrences(keys.take(j), masked_spec(ips[j], config.prefix4, config.prefix6))
        < config.requests) by {
        assert(keys[j] == masked_spec(ips[j], config.prefix4, config.prefix6));
    }
}

struct CounterState {
    window_id: u64,
    v4_counts: HashMap<u32, u32>,
    v6_counts: HashMap<u128, u32>,
}

/// Fixed-window per-IP rate limiter zone handler.
///
/// Returns `Skip` when under the limit (pass to next handler in chain).
/// Returns `Break(Refused)` when the limit is exceeded.
pub struct RateLimiterZoneHandler {
    origin: LowerName,
    config: RateLimiterConfig,
    state: CounterState,
}

impl RateLimiterZoneHandler {
    /// The configuration the handler was made with.
    pub closed spec fn spec_config(self) -> RateLimiterConfig {
        self.config
    }

    /// The zone origin.
    pub closed spec fn spec_origin(self) -> Seq<Seq<u8>> {
        self.origin@
    }

    closed spec fn count(self, key: IpAddress) -> nat {
        match key {
            IpAddress::V4(a) => if self.state.v4_counts@.contains_key(a) {
                self.state.v4_counts@[a] as nat
            } else {
                0
            },
            IpAddress::V6(a) => if self.state.v6_counts@.contains_key(a) {
                self.state.v6_counts@[a] as nat
            } else {
                0
            },
        }
    }

    /// The window the counts are kept for and the count of each bucket.
    pub closed spec fn model(self) -> WindowCounts<IpAddress> {
        WindowCounts { window_id: self.state.window_id, counts: Map::new(|k: IpAddress| true, |k: IpAddress| self.count(k)) }
    }

    /// Create a rate limiter from configuration.
    pub fn try_from_config(origin: Name, config: RateLimiterConfig) -> (r: Result<Self, String>)
        ensures
            r matches Ok(h) && h.spec_config() == config && h.spec_origin() == lower_labels(origin@)
                && h.model().window_id == 0 && h.model().counts == zero_counts::<IpAddress>(),
    {
        let h = RateLimiterZoneHandler {
            origin: LowerName::new(&origin),
            config,
            state: CounterState { window_id: 0, v4_counts: HashMap::new(), v6_counts: HashMap::new() },
        };
        assert(h.model().counts =~= zero_counts::<IpAddress>());
        Ok(h)
    }

    /// Counts a query of `ip` at second `now` (since the Unix epoch) and says
    /// whether it is under the limit.
    pub fn check_at(&mut self, ip: IpAddress, now: u64) -> (r: bool)
        ensures
            final(self).spec_config() == old(self).spec_config(),
            final(self).spec_origin() == old(self).spec_origin(),
            final(self).model() == take_one(
                old(self).model(),
                masked_spec(ip, old(self).spec_config().prefix4, old(self).spec_config().prefix6),
                window_of(now, old(self).spec_config().window),
                old(self).spec_config().requests,
            ).0,
            r == take_one(
                old(self).model(),
                masked_spec(ip, old(self).spec_config().prefix4, old(self).spec_config().prefix6),
                window_of(now, old(self).spec_config().window),
                old(self).spec_config().requests,
            ).1,
    {
        let ghost before = self.model();
        let key = self.masked_ip(ip);
        let wid: u64 = window_id(now, self.config.window);
        if self.state.window_id != wid {
            self.state.window_id = wid;
            self.state.v4_counts.clear();
            self.state.v6_counts.clear();
        }
        let ghost base = counts_in(before, wid);
        assert(self.model().counts =~= base);
        let limit: u32 = self.config.requests;
        match key {
            IpAddress::V4(a) => {
                let c: u32 = match self.state.v4_counts.get(&a) {
                    Some(c) => *c,
                    None => 0,
                };
                assert(c == base[key]);
                if c >= limit {
                    return false;
                }
                self.state.v4_counts.insert(a, c + 1);
                assert(self.model().counts =~= base.insert(key, base[key] + 1));
                true
            },
            IpAddress::V6(a) => {
                let c: u32 = match self.state.v6_counts.get(&a) {
                    Some(c) => *c,
                    None => 0,
                };
                assert(c == base[key]);
                if c >= limit {
                    return false;
                }
                self.state.v6_counts.insert(a, c + 1);
                assert(self.model().counts =~= base.insert(key, base[key] + 1));
                true
            },
        }
    }

    /// Counts a query of `ip` now and says whether it is under the limit. The
    /// clock decides the window; whatever it reads, the query is counted as
    /// `check_at` counts it at that second.
    pub fn check(&mut self, ip: IpAddress) -> (r: bool)
        ensures
            final(self).spec_config() == old(self).spec_config(),
            final(self).spec_origin() == old(self).spec_origin(),
            exists|now: u64|
                {
                    let step = take_one(
                        old(self).model(),
                        masked_spec(
                            ip,
                            old(self).spec_config().prefix4,
                            old(self).spec_config().prefix6,
                        ),
                        #[trigger] window_of(now, old(self).spec_config().window),
                        old(self).spec_config().requests,
                    );
                    final(self).model() == step.0 && r == step.1
                },
    {
        let now: u64 = unix_time_secs();
        self.check_at(ip, now)
    }

    /// The handler's answer to a query: `Skip` when there is no request
    /// information or the client is under the limit, a refusal otherwise.
    pub fn lookup(&mut self, request_info: Option<&RequestInfo>) -> (r: LookupControlFlow)
        ensures
            final(self).spec_config() == old(self).spec_config(),
            final(self).spec_origin() == old(self).spec_origin(),
            request_info is None ==> r is Skip && final(self).model() == old(self).model(),
            request_info matches Some(info) ==> exists|now: u64|
                {
                    let step = take_one(
                        old(self).model(),
                        masked_spec(
                            info.src.ip,
                            old(self).spec_config().prefix4,
                            old(self).spec_config().prefix6,
                        ),
                        #[trigger] window_of(now, old(self).spec_config().window),
                        old(self).spec_config().requests,
                    );
                    &&& final(self).model() == step.0
                    &&& step.1 ==> r is Skip
                    &&& !step.1 ==> is_refused(r)
                },
    {
        match request_info {
            None => LookupControlFlow::Skip,
            Some(info) => {
                if self.check(info.src.ip) {
                    LookupControlFlow::Skip
                } else {
                    LookupControlFlow::Break(Err(LookupError::ResponseCode(ResponseCode::Refused)))
                }
            },
        }
    }

    /// The handler serves an external zone.
    pub fn zone_type(&self) -> (r: ZoneType)
        ensures
            r == ZoneType::External,
    {
        ZoneType::External
    }

    /// The handler denies zone transfers.
    pub fn axfr_policy(&self) -> (r: AxfrPolicy)
        ensures
            r == AxfrPolicy::Deny,
    {
        AxfrPolicy::Deny
    }

    /// The zone origin.
    pub fn origin(&self) -> (r: &LowerName)
        ensures
            r@ == self.spec_origin(),
    {
        &self.origin
    }

    /// The label under which the handler's metrics are reported.
    pub fn metrics_label(&self) -> (r: &'static str)
        ensures
            r@ == "rate_limiter"@,
    {
        "rate_limiter"
    }

    /// The handler holds no NSEC records.
    pub fn nsec_records(&self) -> (r: LookupControlFlow)
        ensures
            r matches LookupControlFlow::Continue(Err(LookupError::Io(msg))) && msg@
                == "NSEC records are unimplemented for pipeline handlers"@,
    {
        unimplemented_nsec()
    }

    /// The handler holds no NSEC3 records.
    pub fn nsec3_records(&self) -> (r: LookupControlFlow)
        ensures
            r matches LookupControlFlow::Continue(Err(LookupError::Io(msg))) && msg@
                == "NSEC3 records are unimplemented for pipeline handlers"@,
    {
        unimplemented_nsec3()
    }
}

} // verus!
