//! Query-type router: each route names record types and an upstream
//! forwarder; the first route that matches a query's type answers it.
use vstd::prelude::*;
use vstd::string::*;

use crate::dns::{
    parse_record_type, record_type_code, unimplemented_nsec, unimplemented_nsec3, AxfrPolicy, ForwardConfig,
    LookupControlFlow, LookupError, RecordType, ZoneType,
};
use crate::domain::{lower_labels, LowerName, Name};

verus! {

/// A single routing rule.
#[derive(Clone, Debug)]
pub struct RouteConfig {
    /// Record types that match this route (empty = wildcard).
    pub record_types: Vec<String>,
    /// Embedded forwarder configuration for this route.
    pub forward: ForwardConfig,
}

/// Router configuration — first matching route wins.
#[derive(Clone, Debug)]
pub struct RouterConfig {
    /// Ordered list of routes.
    pub routes: Vec<RouteConfig>,
}

struct Route {
    types: Vec<RecordType>,
    forward: ForwardConfig,
}

/// Whether a route with these record types takes a query of type `rtype`:
/// a route without types takes every query.
pub open spec fn route_takes(types: Seq<RecordType>, rtype: RecordType) -> bool {
    types.len() == 0 || types.contains(rtype)
}

/// The names of a route's record types.
pub open spec fn type_names(route: RouteConfig) -> Seq<Seq<char>> {
    route.record_types@.map_values(|s: String| s@)
}

/// The first name among `names` that is no record type.
pub open spec fn first_unknown(names: Seq<Seq<char>>) -> Option<Seq<char>>
    decreases names.len(),
{
    if names.len() == 0 {
        None
    } else if record_type_code(names[0]) is None {
        Some(names[0])
    } else {
        first_unknown(names.drop_first())
    }
}

/// The first unknown record type name over all routes, in order.
pub open spec fn first_unknown_in_routes(routes: Seq<RouteConfig>) -> Option<Seq<char>>
    decreases routes.len(),
{
    if routes.len() == 0 {
        None
    } else {
        match first_unknown(type_names(routes[0])) {
            Some(n) => Some(n),
            None => first_unknown_in_routes(routes.drop_first()),
        }
    }
}

/// The record types that the names stand for.
pub open spec fn codes_of(names: Seq<Seq<char>>) -> Seq<RecordType> {
    names.map_values(|n: Seq<char>| RecordType(record_type_code(n)->0))
}

/// Routes queries to different upstream forwarders based on QTYPE.
pub struct RouterZoneHandler {
    origin: LowerName,
    routes: Vec<Route>,
}

impl RouterZoneHandler {
    /// The record types of each route, in order.
    pub closed spec fn route_types(self) -> Seq<Seq<RecordType>> {
        self.routes@.map_values(|r: Route| r.types@)
    }

    /// The forwarder configuration of each route, in order.
    pub closed spec fn route_forwards(self) -> Seq<ForwardConfig> {
        self.routes@.map_values(|r: Route| r.forward)
    }

    /// The zone origin.
    pub closed spec fn spec_origin(self) -> Seq<Seq<u8>> {
        self.origin@
    }

    fn parse_types(route: &RouteConfig) -> (r: Result<Vec<RecordType>, String>)
        ensures
            match first_unknown(type_names(*route)) {
                Some(name) => r matches Err(msg) && msg@ == "invalid record type in router route: "@
                    + name,
                None => r matches Ok(types) && types@ == codes_of(type_names(*route)),
            },
    {
        let ghost names = type_names(*route);
        let mut types: Vec<RecordType> = Vec::new();
        let mut i: usize = 0;
        assert(names.skip(0) =~= names);
        assert(names.take(0) =~= Seq::<Seq<char>>::empty());
        while i < route.record_types.len()
            invariant
                names == type_names(*route),
                i <= names.len(),
                types@ == codes_of(names.take(i as int)),
                first_unknown(names) == first_unknown(names.skip(i as int)),
            decreases names.len() - i,
        {
            proof {
                assert(names.skip(i as int).drop_first() =~= names.skip(i + 1));
                assert(names.skip(i as int)[0] == names[i as int]);
            }
            match parse_record_type(&route.record_types[i]) {
                Some(t) => {
                    types.push(t);
                    proof {
                        assert(codes_of(names.take(i + 1)) =~= codes_of(names.take(i as int)).push(
                            RecordType(record_type_code(names[i as int])->0),
                        ));
                    }
                },
                None => {
                    let mut msg = String::from_str("invalid record type in router route: ");
                    msg.append(route.record_types[i].as_str());
                    return Err(msg);
                },
            }
            i = i + 1;
        }
        proof {
            assert(names.take(i as int) =~= names);
            assert(names.skip(i as int) =~= Seq::<Seq<char>>::empty());
        }
        Ok(types)
    }

    /// Build a router from configuration: every record type name of every
    /// route must be known; the first unknown one is reported.
    pub fn try_from_config(origin: Name, config: RouterConfig) -> (r: Result<Self, String>)
        ensures
            match first_unknown_in_routes(config.routes@) {
                Some(name) => r matches Err(msg) && msg@ == "invalid record type in router route: "@
                    + name,
                None => r matches Ok(h) && h.spec_origin() == lower_labels(origin@)
                    && h.route_types() == config.routes@.map_values(
                    |rc: RouteConfig| codes_of(type_names(rc)),
                ) && h.route_forwards() == config.routes@.map_values(
                    |rc: RouteConfig| rc.forward,
                ),
            },
    {
        let ghost configs = config.routes@;
        let mut routes: Vec<Route> = Vec::new();
        assert(configs.skip(0) =~= configs);
        let mut rest = config.routes;
        while rest.len() > 0
            invariant
                configs == config.routes@,
                routes@.len() + rest@.len() == configs.len(),
                rest@ == configs.skip(routes@.len() as int),
                routes@.map_values(|r: Route| r.types@) == configs.take(
                    routes@.len() as int,
                ).map_values(|rc: RouteConfig| codes_of(type_names(rc))),
                routes@.map_values(|r: Route| r.forward) == configs.take(
                    routes@.len() as int,
                ).map_values(|rc: RouteConfig| rc.forward),
                first_unknown_in_routes(configs) == first_unknown_in_routes(rest@),
            decreases rest@.len(),
        {
            let ghost n = routes@.len() as int;
            let ghost rest_before = rest@;
            let route = rest.remove(0);
            proof {
                assert(route == configs[n]);
                assert(rest@ =~= configs.skip(n + 1));
                assert(rest_before[0] == route);
                assert(rest_before.drop_first() =~= rest@);
            }
            let types = match Self::parse_types(&route) {
                Ok(types) => types,
                Err(e) => {
                    proof {
                        assert(first_unknown(type_names(route)) is Some);
                        assert(first_unknown_in_routes(rest_before) == first_unknown(
                            type_names(route),
                        ));
                    }
                    return Err(e);
                },
            };
            proof {
                assert(first_unknown(type_names(route)) is None);
                assert(first_unknown_in_routes(rest_before) == first_unknown_in_routes(rest@));
            }
            let ghost routes_before = routes@;
            let ghost new_types = types@;
            let ghost new_forward = route.forward;
            assert(new_types == codes_of(type_names(configs[n])));
            routes.push(Route { types, forward: route.forward });
            proof {
                assert(routes@ == routes_before.push(routes@[n]));
                assert(routes@[n].types@ == new_types);
                assert(routes@[n].forward == new_forward);
                assert(configs.take(n + 1) =~= configs.take(n).push(configs[n]));
                let lhs = routes@.map_values(|r: Route| r.types@);
                let rhs = configs.take(n + 1).map_values(|rc: RouteConfig| codes_of(type_names(rc)));
                assert forall|j: int| 0 <= j < n + 1 implies lhs[j] == rhs[j] by {
                    if j < n {
                        assert(routes@[j] == routes_before[j]);
                        assert(routes_before.map_values(|r: Route| r.types@)[j] == configs.take(
                            n,
                        ).map_values(|rc: RouteConfig| codes_of(type_names(rc)))[j]);
                    }
                }
                assert(routes@.map_values(|r: Route| r.types@) =~= configs.take(n + 1).map_values(
                    |rc: RouteConfig| codes_of(type_names(rc)),
                ));
                let lhs2 = routes@.map_values(|r: Route| r.forward);
                let rhs2 = configs.take(n + 1).map_values(|rc: RouteConfig| rc.forward);
                assert forall|j: int| 0 <= j < n + 1 implies lhs2[j] == rhs2[j] by {
                    if j < n {
                        assert(routes@[j] == routes_before[j]);
                        assert(routes_before.map_values(|r: Route| r.forward)[j] == configs.take(
                            n,
                        ).map_values(|rc: RouteConfig| rc.forward)[j]);
                    }
                }
                assert(routes@.map_values(|r: Route| r.forward) =~= configs.take(n + 1).map_values(
                    |rc: RouteConfig| rc.forward,
                ));
            }
        }
        proof {
            assert(configs.take(routes@.len() as int) =~= configs);
        }
        let h = RouterZoneHandler { origin: LowerName::new(&origin), routes };
        Ok(h)
    }

    /// The index of the first route that takes a query of type `rtype`.
    pub fn matching_route(&self, rtype: RecordType) -> (r: Option<usize>)
        ensures
            match r {
                Some(i) => i < self.route_types().len() && route_takes(self.route_types()[i as int], rtype)
                    && forall|j: int| 0 <= j < i ==> !route_takes(#[trigger] self.route_types()[j], rtype),
                None => forall|j: int|
                    0 <= j < self.route_types().len() ==> !route_takes(#[trigger] self.route_types()[j], rtype),
            },
    {
        let mut i: usize = 0;
        while i < self.routes.len()
            invariant
                i <= self.routes@.len(),
                self.route_types().len() == self.routes@.len(),
                forall|j: int| 0 <= j < i ==> !route_takes(#[trigger] self.route_types()[j], rtype),
            decreases self.routes@.len() - i,
        {
            let types = &self.routes[i].types;
            let mut found: bool = types.len() == 0;
            let mut k: usize = 0;
            while k < types.len() && !found
                invariant
                    k <= types@.len(),
                    found == (types@.len() == 0 || exists|m: int| 0 <= m < k && types@[m] == rtype),
                decreases types@.len() - k,
            {
                if types[k] == rtype {
                    found = true;
                }
                k = k + 1;
            }
            proof {
                assert(self.route_types()[i as int] == types@);
                if !found {
                    assert(k == types@.len());
                    assert(!types@.contains(rtype));
                } else if types@.len() > 0 {
                    let m = choose|m: int| 0 <= m < k && types@[m] == rtype;
                    assert(types@.contains(rtype));
                }
            }
            if found {
                return Some(i);
            }
            i = i + 1;
        }
        None
    }

    /// The forwarder configuration of route `index`.
    pub fn route_forward(&self, index: usize) -> (r: &ForwardConfig)
        requires
            index < self.route_forwards().len(),
        ensures
            *r == self.route_forwards()[index as int],
    {
        &self.routes[index].forward
    }

    /// Number of routes.
    pub fn num_routes(&self) -> (r: usize)
        ensures
            r == self.route_types().len(),
    {
        self.routes.len()
    }

    /// The handler serves an external zone.
    pub fn zone_type(&self) -> (r: ZoneType)
        ensures
            r == ZoneType::External,
    {
        ZoneType::External
    }

    /// The handler denies zone transfers.
    pub fn axfr_policy(&self) -> (r: AxfrPolicy)
        ensures
            r == AxfrPolicy::Deny,
    {
        AxfrPolicy::Deny
    }

    /// The zone origin.
    pub fn origin(&self) -> (r: &LowerName)
        ensures
            r@ == self.spec_origin(),
    {
        &self.origin
    }

    /// The label under which the handler's metrics are reported.
    pub fn metrics_label(&self) -> (r: &'static str)
        ensures
            r@ == "router"@,
    {
        "router"
    }

    /// The handler holds no NSEC records.
    pub fn nsec_records(&self) -> (r: LookupControlFlow)
        ensures
            r matches LookupControlFlow::Continue(Err(LookupError::Io(msg))) && msg@
                == "NSEC records are unimplemented for pipeline handlers"@,
    {
        unimplemented_nsec()
    }

    /// The handler holds no NSEC3 records.
    pub fn nsec3_records(&self) -> (r: LookupControlFlow)
        ensures
            r matches LookupControlFlow::Continue(Err(LookupError::Io(msg))) && msg@
                == "NSEC3 records are unimplemented for pipeline handlers"@,
    {
        unimplemented_nsec3()
    }
}

proof fn lemma_known_names(names: Seq<Seq<char>>)
    requires
        first_unknown(names) is None,
    ensures
        forall|i: int| 0 <= i < names.len() ==> #[trigger] record_type_code(names[i]) is Some,
    decreases names.len(),
{
    if names.len() > 0 {
        lemma_known_names(names.drop_first());
        assert forall|i: int| 0 <= i < names.len() implies #[trigger] record_type_code(names[i]) is Some by {
            if i > 0 {
                assert(names[i] == names.drop_first()[i - 1]);
            }
        }
    }
}

/// A route whose type names are all known takes a query of type code `c`
/// exactly when it names no type, or one of its names stands for `c`.
pub proof fn law_route_takes_named_types(names: Seq<Seq<char>>, c: u16)
    requires
        first_unknown(names) is None,
    ensures
        route_takes(codes_of(names), RecordType(c)) <==> (names.len() == 0 || exists|i: int|
            0 <= i < names.len() && #[trigger] record_type_code(names[i]) == Some(c)),
{
    lemma_known_names(names);
    let codes = codes_of(names);
    if codes.contains(RecordType(c)) {
        let i = choose|i: int| 0 <= i < codes.len() && codes[i] == RecordType(c);
        assert(record_type_code(names[i]) == Some(c));
    }
    if exists|i: int| 0 <= i < names.len() && #[trigger] record_type_code(names[i]) == Some(c) {
        let i = choose|i: int| 0 <= i < names.len() && #[trigger] record_type_code(names[i]) == Some(c);
        assert(codes[i] == RecordType(c));
    }
}

/// Whether route `i` is the one chosen for `rtype`: it takes the type and no
/// route before it does (as `matching_route` chooses).
pub open spec fn chosen_route(routes: Seq<Seq<RecordType>>, i: int, rtype: RecordType) -> bool {
    &&& 0 <= i < routes.len()
    &&& route_takes(routes[i], rtype)
    &&& forall|j: int| 0 <= j < i ==> !route_takes(#[trigger] routes[j], rtype)
}

/// A route without record types takes every query, so some route at or
/// before it is chosen for every type and no route after it is ever chosen.
pub proof fn law_wildcard_route_shadows_later_routes(routes: Seq<Seq<RecordType>>, w: int, rtype: RecordType)
    requires
        0 <= w < routes.len(),
        routes[w].len() == 0,
    ensures
        route_takes(routes[w], rtype),
        forall|i: int| chosen_route(routes, i, rtype) ==> i <= w,
        exists|i: int| chosen_route(routes, i, rtype),
{
    assert forall|i: int| chosen_route(routes, i, rtype) implies i <= w by {
        if i > w {
            assert(route_takes(routes[w], rtype));
        }
    }
    if exists|j: int| 0 <= j < w && route_takes(routes[j], rtype) {
        let j = choose|j: int| 0 <= j < w && route_takes(routes[j], rtype);
        lemma_some_route_chosen(routes, j, rtype);
    } else {
        assert(chosen_route(routes, w, rtype));
    }
}

proof fn lemma_some_route_chosen(routes: Seq<Seq<RecordType>>, t: int, rtype: RecordType)
    requires
        0 <= t < routes.len(),
        route_takes(routes[t], rtype),
    ensures
        exists|i: int| chosen_route(routes, i, rtype),
    decreases t,
{
    if exists|j: int| 0 <= j < t && route_takes(routes[j], rtype) {
        let j = choose|j: int| 0 <= j < t && route_takes(routes[j], rtype);
        lemma_some_route_chosen(routes, j, rtype);
    } else {
        assert(chosen_route(routes, t, rtype));
    }
}

} // verus!
