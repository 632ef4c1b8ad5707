//! TTL clamping middleware: bounds the TTLs of answers that earlier handlers
//! produced.
use vstd::prelude::*;

use crate::dns::{
    answer_records, records_view, unimplemented_nsec, unimplemented_nsec3, AuthLookup, AuthLookupView, AxfrPolicy,
    FlowView, LookupControlFlow, LookupError, Record, RecordView, ZoneType,
};
use crate::domain::{lower_labels, LowerName, Name};

verus! {

/// TTL modifier configuration.
#[derive(Clone, Copy, Debug, PartialEq, Eq, Structural)]
pub struct TtlModifierConfig {
    /// Minimum TTL for all records in responses.
    pub ttl_min: u32,
    /// Maximum TTL (0 = no upper limit).
    pub ttl_max: u32,
}

/// The upper TTL bound of a configuration: `ttl_max`, or no bound for 0.
pub open spec fn upper_bound(config: TtlModifierConfig) -> u32 {
    if config.ttl_max == 0 {
        u32::MAX
    } else {
        config.ttl_max
    }
}

/// Whether the bounds of a configuration are ordered, as clamping needs.
pub open spec fn bounds_ordered(config: TtlModifierConfig) -> bool {
    config.ttl_min <= upper_bound(config)
}

/// `ttl` raised to `min` or lowered to `max` where it lies outside them.
pub open spec fn clamp_spec(ttl: u32, min: u32, max: u32) -> u32 {
    if ttl < min {
        min
    } else if ttl > max {
        max
    } else {
        ttl
    }
}

/// A record with its TTL clamped to the configuration's bounds.
pub open spec fn clamped_record(r: RecordView, config: TtlModifierConfig) -> RecordView {
    RecordView {
        name: r.name,
        record_type: r.record_type,
        ttl: clamp_spec(r.ttl, config.ttl_min, upper_bound(config)),
        rdata: r.rdata,
    }
}

/// The answer with clamped TTLs: unchanged when it yields no records,
/// otherwise its records with clamped TTLs as the answer section, without
/// additional records.
pub open spec fn modify_spec(l: AuthLookupView, config: TtlModifierConfig) -> AuthLookupView {
    let records = answer_records(l);
    if records.len() == 0 {
        l
    } else {
        AuthLookupView::Records {
            answers: records.map_values(|r: RecordView| clamped_record(r, config)),
            additionals: None,
        }
    }
}

/// The flow after the consult phase: successful answers get clamped TTLs,
/// everything else passes unchanged.
pub open spec fn consult_spec(f: FlowView, config: TtlModifierConfig) -> FlowView {
    match f {
        FlowView::Continue(Ok(l)) => FlowView::Continue(Ok(modify_spec(l, config))),
        FlowView::Break(Ok(l)) => FlowView::Break(Ok(modify_spec(l, config))),
        other => other,
    }
}

/// Whether the consult phase clamps TTLs for this flow: it is a successful
/// answer that yields records.
pub open spec fn consult_clamps(f: FlowView) -> bool {
    match f {
        FlowView::Continue(Ok(l)) => answer_records(l).len() > 0,
        FlowView::Break(Ok(l)) => answer_records(l).len() > 0,
        _ => false,
    }
}

/// Whether the consult phase clamps TTLs for this flow: it is a successful
/// answer that yields records.
pub fn consult_would_clamp(flow: &LookupControlFlow) -> (r: bool)
    ensures
        r == consult_clamps(flow@),
{
    let lookup = match flow {
        LookupControlFlow::Continue(Ok(l)) => l,
        LookupControlFlow::Break(Ok(l)) => l,
        _ => {
            return false;
        },
    };
    match lookup {
        AuthLookup::Empty => false,
        AuthLookup::Records { answers, .. } => answers.len() > 0,
        AuthLookup::Soa(records) => records.len() > 0,
    }
}

/// Clamps record TTLs in responses via the consult phase.
///
/// Place this handler after a recursor/forwarder in the zone chain. It does not
/// resolve queries itself — it modifies TTLs on answers from upstream handlers.
pub struct TtlModifierZoneHandler {
    origin: LowerName,
    config: TtlModifierConfig,
}

impl TtlModifierZoneHandler {
    /// The configuration the handler was made with.
    pub closed spec fn spec_config(self) -> TtlModifierConfig {
        self.config
    }

    /// The zone origin.
    pub closed spec fn spec_origin(self) -> Seq<Seq<u8>> {
        self.origin@
    }

    /// Create a TTL modifier from configuration.
    pub fn try_from_config(origin: Name, config: TtlModifierConfig) -> (r: Result<Self, String>)
        ensures
            r matches Ok(h) && h.spec_config() == config && h.spec_origin() == lower_labels(
                origin@,
            ),
    {
        Ok(TtlModifierZoneHandler { origin: LowerName::new(&origin), config })
    }

    /// The configuration the handler was made with.
    pub fn config(&self) -> (r: TtlModifierConfig)
        ensures
            r == self.spec_config(),
    {
        self.config
    }

    /// Whether the handler's bounds are ordered, as clamping needs.
    pub fn has_ordered_bounds(&self) -> (r: bool)
        ensures
            r == bounds_ordered(self.spec_config()),
    {
        self.config.ttl_max == 0 || self.config.ttl_min <= self.config.ttl_max
    }

    /// The TTL bounded below by `ttl_min` and above by `ttl_max` (no upper
    /// bound when `ttl_max` is 0).
    pub fn clamp_ttl(&self, ttl: u32) -> (r: u32)
        requires
            bounds_ordered(self.spec_config()),
        ensures
            r == clamp_spec(ttl, self.spec_config().ttl_min, upper_bound(self.spec_config())),
    {
        let max: u32 = if self.config.ttl_max == 0 {
            u32::MAX
        } else {
            self.config.ttl_max
        };
        if ttl < self.config.ttl_min {
            self.config.ttl_min
        } else if ttl > max {
            max
        } else {
            ttl
        }
    }

    fn clamp_records(&self, records: Vec<Record>) -> (r: Vec<Record>)
        requires
            bounds_ordered(self.spec_config()),
        ensures
            records_view(r@) == records_view(records@).map_values(
                |rv: RecordView| clamped_record(rv, self.spec_config()),
            ),
    {
        let ghost input = records@;
        let ghost f = |rv: RecordView| clamped_record(rv, self.spec_config());
        let mut out: Vec<Record> = Vec::new();
        let mut rest = records;
        while rest.len() > 0
            invariant
                bounds_ordered(self.spec_config()),
                f == (|rv: RecordView| clamped_record(rv, self.spec_config())),
                out@.len() + rest@.len() == input.len(),
                rest@ == input.skip(out@.len() as int),
                records_view(out@) == records_view(input.take(out@.len() as int)).map_values(f),
            decreases rest@.len(),
        {
            let ghost before = out@;
            let ghost rest_before = rest@;
            let mut record = rest.remove(0);
            let ghost unclamped = record@;
            record.ttl = self.clamp_ttl(record.ttl);
            out.push(record);
            proof {
                let n = before.len() as int;
                assert(unclamped == input[n]@);
                assert(record@ == f(unclamped));
                assert(rest@ =~= input.skip(out@.len() as int));
                let lhs = records_view(out@);
                let rhs = records_view(input.take(out@.len() as int)).map_values(f);
                assert forall|i: int| 0 <= i < lhs.len() implies lhs[i] == rhs[i] by {
                    if i < n {
                        assert(lhs[i] == records_view(before)[i]);
                        assert(records_view(before)[i] == records_view(input.take(n)).map_values(f)[i]);
                    }
                }
                assert(lhs =~= rhs);
            }
        }
        proof {
            assert(input.take(out@.len() as int) =~= input);
        }
        out
    }

    /// The answer with TTLs clamped to the configured bounds.
    pub fn modify_lookup(&self, lookup: AuthLookup) -> (r: AuthLookup)
        requires
            answer_records(lookup@).len() > 0 ==> bounds_ordered(self.spec_config()),
        ensures
            r@ == modify_spec(lookup@, self.spec_config()),
    {
        match lookup {
            AuthLookup::Empty => AuthLookup::Empty,
            AuthLookup::Records { answers, additionals } => {
                if answers.len() == 0 {
                    AuthLookup::Records { answers, additionals }
                } else {
                    AuthLookup::Records { answers: self.clamp_records(answers), additionals: None }
                }
            },
            AuthLookup::Soa(records) => {
                if records.len() == 0 {
                    AuthLookup::Soa(records)
                } else {
                    AuthLookup::Records { answers: self.clamp_records(records), additionals: None }
                }
            },
        }
    }

    /// The handler resolves nothing itself: every lookup passes on.
    pub fn lookup(&self) -> (r: LookupControlFlow)
        ensures
            r is Skip,
    {
        LookupControlFlow::Skip
    }

    /// The consult phase: clamps the TTLs of a successful earlier answer,
    /// keeping whether the chain continues or stops; errors and skips pass
    /// unchanged.
    pub fn consult(&self, last_result: LookupControlFlow) -> (r: LookupControlFlow)
        requires
            consult_clamps(last_result@) ==> bounds_ordered(self.spec_config()),
        ensures
            r@ == consult_spec(last_result@, self.spec_config()),
    {
        match last_result {
            LookupControlFlow::Continue(Ok(lookup)) => LookupControlFlow::Continue(
                Ok(self.modify_lookup(lookup)),
            ),
            LookupControlFlow::Break(Ok(lookup)) => LookupControlFlow::Break(
                Ok(self.modify_lookup(lookup)),
            ),
            other => other,
        }
    }

    /// The handler serves an external zone.
    pub fn zone_type(&self) -> (r: ZoneType)
        ensures
            r == ZoneType::External,
    {
        ZoneType::External
    }

    /// The handler denies zone transfers.
    pub fn axfr_policy(&self) -> (r: AxfrPolicy)
        ensures
            r == AxfrPolicy::Deny,
    {
        AxfrPolicy::Deny
    }

    /// The zone origin.
    pub fn origin(&self) -> (r: &LowerName)
        ensures
            r@ == self.spec_origin(),
    {
        &self.origin
    }

    /// The label under which the handler's metrics are reported.
    pub fn metrics_label(&self) -> (r: &'static str)
        ensures
            r@ == "ttl_modifier"@,
    {
        "ttl_modifier"
    }

    /// The handler holds no NSEC records.
    pub fn nsec_records(&self) -> (r: LookupControlFlow)
        ensures
            r matches LookupControlFlow::Continue(Err(LookupError::Io(msg))) && msg@
                == "NSEC records are unimplemented for pipeline handlers"@,
    {
        unimplemented_nsec()
    }

    /// The handler holds no NSEC3 records.
    pub fn nsec3_records(&self) -> (r: LookupControlFlow)
        ensures
            r matches LookupControlFlow::Continue(Err(LookupError::Io(msg))) && msg@
                == "NSEC3 records are unimplemented for pipeline handlers"@,
    {
        unimplemented_nsec3()
    }
}

/// A clamped TTL lies within the bounds.
pub proof fn law_clamp_within_bounds(ttl: u32, min: u32, max: u32)
    requires
        min <= max,
    ensures
        min <= clamp_spec(ttl, min, max) <= max,
{
}

/// A TTL within the bounds is kept.
pub proof fn law_clamp_keeps_ttl_within_bounds(ttl: u32, min: u32, max: u32)
    requires
        min <= ttl <= max,
    ensures
        clamp_spec(ttl, min, max) == ttl,
{
}

/// Clamping twice is clamping once.
pub proof fn law_clamp_idempotent(ttl: u32, min: u32, max: u32)
    requires
        min <= max,
    ensures
        clamp_spec(clamp_spec(ttl, min, max), min, max) == clamp_spec(ttl, min, max),
{
}

/// Every record of a modified answer has its TTL within the bounds.
pub proof fn law_modified_ttls_within_bounds(l: AuthLookupView, config: TtlModifierConfig)
    requires
        bounds_ordered(config),
        answer_records(l).len() > 0,
    ensures
        forall|i: int|
            0 <= i < answer_records(modify_spec(l, config)).len() ==> config.ttl_min
                <= #[trigger] answer_records(modify_spec(l, config))[i].ttl <= upper_bound(config),
{
}

/// Modifying an answer a second time changes nothing more.
pub proof fn law_modify_idempotent(l: AuthLookupView, config: TtlModifierConfig)
    requires
        bounds_ordered(config),
    ensures
        modify_spec(modify_spec(l, config), config) == modify_spec(l, config),
{
    let once = modify_spec(l, config);
    if answer_records(l).len() > 0 {
        let clamped = answer_records(once);
        assert(clamped.map_values(|r: RecordView| clamped_record(r, config)) =~= clamped);
    }
}

} // verus!
