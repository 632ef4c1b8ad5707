//! Racing of upstream forwarders: the first successful answer wins.
//!
//! The forwarders are asked at once; `FastestRace` takes their results in
//! the order they complete and decides when the race is over and with what.
use vstd::prelude::*;
use vstd::string::*;

use crate::dns::{
    unimplemented_nsec, unimplemented_nsec3, AuthLookupView, AxfrPolicy, FlowView, ForwardConfig,
    LookupControlFlow, LookupError, LookupErrorView, ResponseCode, ZoneType,
};
use crate::domain::{lower_labels, LowerName, Name};

verus! {

/// Configuration for fastest-resolver racing.
#[derive(Clone, Debug)]
pub struct FastestConfig {
    /// Forwarder configurations to race.
    pub forwards: Vec<ForwardConfig>,
}

/// Races multiple forwarders and returns the first successful response.
pub struct FastestZoneHandler {
    origin: LowerName,
    forwards: Vec<ForwardConfig>,
}

impl FastestZoneHandler {
    /// The forwarder configurations, in order.
    pub closed spec fn spec_forwards(self) -> Seq<ForwardConfig> {
        self.forwards@
    }

    /// The zone origin.
    pub closed spec fn spec_origin(self) -> Seq<Seq<u8>> {
        self.origin@
    }

    /// Build a fastest handler from configuration; at least one forwarder is
    /// needed.
    pub fn try_from_config(origin: Name, config: FastestConfig) -> (r: Result<Self, String>)
        ensures
            config.forwards@.len() == 0 ==> (r matches Err(msg) && msg@
                == "fastest requires at least one forward configuration"@),
            config.forwards@.len() > 0 ==> (r matches Ok(h) && h.spec_forwards() == config.forwards@
                && h.spec_origin() == lower_labels(origin@)),
    {
        if config.forwards.len() == 0 {
            return Err(String::from_str("fastest requires at least one forward configuration"));
        }
        Ok(FastestZoneHandler { origin: LowerName::new(&origin), forwards: config.forwards })
    }

    /// The forwarder configurations, in order.
    pub fn forwards(&self) -> (r: &Vec<ForwardConfig>)
        ensures
            r@ == self.spec_forwards(),
    {
        &self.forwards
    }

    /// The handler serves an external zone.
    pub fn zone_type(&self) -> (r: ZoneType)
        ensures
            r == ZoneType::External,
    {
        ZoneType::External
    }

    /// The handler denies zone transfers.
    pub fn axfr_policy(&self) -> (r: AxfrPolicy)
        ensures
            r == AxfrPolicy::Deny,
    {
        AxfrPolicy::Deny
    }

    /// The zone origin.
    pub fn origin(&self) -> (r: &LowerName)
        ensures
            r@ == self.spec_origin(),
    {
        &self.origin
    }

    /// The label under which the handler's metrics are reported.
    pub fn metrics_label(&self) -> (r: &'static str)
        ensures
            r@ == "fastest"@,
    {
        "fastest"
    }

    /// The handler holds no NSEC records.
    pub fn nsec_records(&self) -> (r: LookupControlFlow)
        ensures
            r matches LookupControlFlow::Continue(Err(LookupError::Io(msg))) && msg@
                == "NSEC records are unimplemented for pipeline handlers"@,
    {
        unimplemented_nsec()
    }

    /// The handler holds no NSEC3 records.
    pub fn nsec3_records(&self) -> (r: LookupControlFlow)
        ensures
            r matches LookupControlFlow::Continue(Err(LookupError::Io(msg))) && msg@
                == "NSEC3 records are unimplemented for pipeline handlers"@,
    {
        unimplemented_nsec3()
    }
}

/// The outcome when no forwarder answered successfully and none failed.
pub open spec fn no_answer() -> FlowView {
    FlowView::Continue(Err(LookupErrorView::ResponseCode(ResponseCode::ServFail)))
}

/// The answer of the first successful result.
pub open spec fn first_success(results: Seq<FlowView>) -> Option<AuthLookupView>
    decreases results.len(),
{
    if results.len() == 0 {
        None
    } else {
        match results[0] {
            FlowView::Continue(Ok(l)) => Some(l),
            FlowView::Break(Ok(l)) => Some(l),
            _ => first_success(results.drop_first()),
        }
    }
}

/// The error of the last failed result.
pub open spec fn last_error(results: Seq<FlowView>) -> Option<LookupErrorView>
    decreases results.len(),
{
    if results.len() == 0 {
        None
    } else {
        match last_error(results.drop_first()) {
            Some(e) => Some(e),
            None => match results[0] {
                FlowView::Continue(Err(e)) => Some(e),
                FlowView::Break(Err(e)) => Some(e),
                _ => None,
            },
        }
    }
}

/// The outcome of a race whose results arrived in the order of `results`:
/// the first successful answer (continuing the chain); without one, the last
/// error (continuing the chain); without any, a server failure.
pub open spec fn race_spec(results: Seq<FlowView>) -> FlowView {
    match first_success(results) {
        Some(l) => FlowView::Continue(Ok(l)),
        None => match last_error(results) {
            Some(e) => FlowView::Continue(Err(e)),
            None => no_answer(),
        },
    }
}

/// Where a race stands: the error to report if no success arrives.
pub struct FastestRace {
    last_err: LookupControlFlow,
}

/// What a race does with a result.
pub open spec fn race_step(last_err: FlowView, result: FlowView) -> (FlowView, Option<FlowView>) {
    match result {
        FlowView::Continue(Ok(l)) => (last_err, Some(FlowView::Continue(Ok(l)))),
        FlowView::Break(Ok(l)) => (last_err, Some(FlowView::Continue(Ok(l)))),
        FlowView::Continue(Err(e)) => (FlowView::Continue(Err(e)), None),
        FlowView::Break(Err(e)) => (FlowView::Continue(Err(e)), None),
        FlowView::Skip => (last_err, None),
    }
}

/// The outcome of a race that folds `results` in with `race_step`, starting
/// from `last_err`: the first decided outcome, or `last_err` at the end.
pub open spec fn race_fold(last_err: FlowView, results: Seq<FlowView>) -> FlowView
    decreases results.len(),
{
    if results.len() == 0 {
        last_err
    } else {
        let (next, done) = race_step(last_err, results[0]);
        match done {
            Some(outcome) => outcome,
            None => race_fold(next, results.drop_first()),
        }
    }
}

impl FastestRace {
    /// The error the race reports if no success arrives.
    pub closed spec fn pending(self) -> FlowView {
        self.last_err@
    }

    /// A race before any result: it would end in a server failure.
    pub fn new() -> (r: FastestRace)
        ensures
            r.pending() == no_answer(),
    {
        FastestRace {
            last_err: LookupControlFlow::Continue(
                Err(LookupError::ResponseCode(ResponseCode::ServFail)),
            ),
        }
    }

    /// Takes the next result to complete. A success ends the race with that
    /// answer, continuing the chain; an error becomes the error to report;
    /// a skip changes nothing.
    pub fn observe(&mut self, result: LookupControlFlow) -> (r: Option<LookupControlFlow>)
        ensures
            (final(self).pending(), match r {
                Some(f) => Some(f@),
                None => None,
            }) == race_step(old(self).pending(), result@),
    {
        match result {
            LookupControlFlow::Continue(Ok(lookup)) | LookupControlFlow::Break(Ok(lookup)) => {
                Some(LookupControlFlow::Continue(Ok(lookup)))
            },
            LookupControlFlow::Continue(Err(e)) | LookupControlFlow::Break(Err(e)) => {
                self.last_err = LookupControlFlow::Continue(Err(e));
                None
            },
            LookupControlFlow::Skip => None,
        }
    }

    /// Ends a race in which every forwarder has answered without success:
    /// the last error, or a server failure.
    pub fn finish(self) -> (r: LookupControlFlow)
        ensures
            r@ == self.pending(),
    {
        self.last_err
    }
}

proof fn lemma_fold(last_err: FlowView, results: Seq<FlowView>)
    ensures
        race_fold(last_err, results) == match first_success(results) {
            Some(l) => FlowView::Continue(Ok(l)),
            None => match last_error(results) {
                Some(e) => FlowView::Continue(Err(e)),
                None => last_err,
            },
        },
    decreases results.len(),
{
    if results.len() > 0 {
        lemma_fold(race_step(last_err, results[0]).0, results.drop_first());
    }
}

/// Feeding a race the results in the order they complete, and finishing it
/// when they are all in, ends it with the first successful answer; without
/// one, with the last error; without any, with a server failure.
pub proof fn law_race_outcome(results: Seq<FlowView>)
    ensures
        race_fold(no_answer(), results) == race_spec(results),
{
    lemma_fold(no_answer(), results);
}

} // verus!
