use dns_pipeline::dns::{
    parse_record_type, AuthLookup, ForwardConfig, LookupControlFlow, LookupError, Record,
    RecordType, ResponseCode, ZoneType, AxfrPolicy,
};
use dns_pipeline::domain::Name;
use dns_pipeline::fastest::{FastestConfig, FastestRace, FastestZoneHandler};
use dns_pipeline::router::{RouteConfig, RouterConfig, RouterZoneHandler};
use dns_pipeline::ttl_modifier::{consult_would_clamp, TtlModifierConfig, TtlModifierZoneHandler};

fn record(ttl: u32) -> Record {
    Record {
        name: "www.example.com.".to_string(),
        record_type: RecordType(1),
        ttl,
        rdata: vec![192, 0, 2, 1],
    }
}

fn ttl_handler(ttl_min: u32, ttl_max: u32) -> TtlModifierZoneHandler {
    TtlModifierZoneHandler::try_from_config(Name::root(), TtlModifierConfig { ttl_min, ttl_max })
        .unwrap()
}

#[test]
fn clamp_ttl_bounds_both_sides() {
    let h = ttl_handler(60, 3600);
    assert_eq!(h.clamp_ttl(5), 60);
    assert_eq!(h.clamp_ttl(60), 60);
    assert_eq!(h.clamp_ttl(300), 300);
    assert_eq!(h.clamp_ttl(86400), 3600);
}

#[test]
fn zero_max_means_no_upper_bound() {
    let h = ttl_handler(30, 0);
    assert_eq!(h.clamp_ttl(u32::MAX), u32::MAX);
    assert_eq!(h.clamp_ttl(10), 30);
    let h = ttl_handler(0, 0);
    assert_eq!(h.clamp_ttl(0), 0);
}

#[test]
fn modify_lookup_clamps_answers_and_drops_additionals() {
    let h = ttl_handler(100, 200);
    let lookup = AuthLookup::Records {
        answers: vec![record(5), record(150), record(1000)],
        additionals: Some(vec![record(7)]),
    };
    match h.modify_lookup(lookup) {
        AuthLookup::Records { answers, additionals } => {
            let ttls: Vec<u32> = answers.iter().map(|r| r.ttl).collect();
            assert_eq!(ttls, vec![100, 150, 200]);
            assert!(additionals.is_none());
            assert_eq!(answers[0].rdata, vec![192, 0, 2, 1]);
            assert_eq!(answers[0].name, "www.example.com.");
        }
        other => panic!("unexpected {:?}", other),
    }
}

#[test]
fn modify_lookup_keeps_answers_without_records() {
    let h = ttl_handler(100, 200);
    assert!(matches!(h.modify_lookup(AuthLookup::Empty), AuthLookup::Empty));
    match h.modify_lookup(AuthLookup::Records { answers: vec![], additionals: Some(vec![record(1)]) }) {
        AuthLookup::Records { answers, additionals } => {
            assert!(answers.is_empty());
            assert_eq!(additionals.unwrap()[0].ttl, 1);
        }
        other => panic!("unexpected {:?}", other),
    }
    match h.modify_lookup(AuthLookup::Soa(vec![record(9000)])) {
        AuthLookup::Records { answers, additionals } => {
            assert_eq!(answers[0].ttl, 200);
            assert!(additionals.is_none());
        }
        other => panic!("unexpected {:?}", other),
    }
}

#[test]
fn consult_clamps_successes_and_passes_the_rest() {
    let h = ttl_handler(10, 20);
    let r = h.consult(LookupControlFlow::Break(Ok(AuthLookup::Records {
        answers: vec![record(1)],
        additionals: None,
    })));
    match r {
        LookupControlFlow::Break(Ok(AuthLookup::Records { answers, .. })) => assert_eq!(answers[0].ttl, 10),
        other => panic!("unexpected {:?}", other),
    }
    let r = h.consult(LookupControlFlow::Continue(Ok(AuthLookup::Records {
        answers: vec![record(100)],
        additionals: None,
    })));
    match r {
        LookupControlFlow::Continue(Ok(AuthLookup::Records { answers, .. })) => assert_eq!(answers[0].ttl, 20),
        other => panic!("unexpected {:?}", other),
    }
    assert!(matches!(h.consult(LookupControlFlow::Skip), LookupControlFlow::Skip));
    assert!(matches!(
        h.consult(LookupControlFlow::Continue(Err(LookupError::ResponseCode(ResponseCode::NXDomain)))),
        LookupControlFlow::Continue(Err(LookupError::ResponseCode(ResponseCode::NXDomain)))
    ));
    assert!(matches!(h.lookup(), LookupControlFlow::Skip));
    assert_eq!(h.metrics_label(), "ttl_modifier");
    assert_eq!(h.zone_type(), ZoneType::External);
    assert_eq!(h.axfr_policy(), AxfrPolicy::Deny);
}

fn forward(server: &str) -> ForwardConfig {
    ForwardConfig { name_servers: vec![server.to_string()] }
}

fn route(types: &[&str], server: &str) -> RouteConfig {
    RouteConfig { record_types: types.iter().map(|t| t.to_string()).collect(), forward: forward(server) }
}

#[test]
fn record_type_names() {
    assert_eq!(parse_record_type(&"A".to_string()), Some(RecordType(1)));
    assert_eq!(parse_record_type(&"AAAA".to_string()), Some(RecordType(28)));
    assert_eq!(parse_record_type(&"MX".to_string()), Some(RecordType(15)));
    assert_eq!(parse_record_type(&"*".to_string()), Some(RecordType(255)));
    assert_eq!(parse_record_type(&"a".to_string()), None);
    assert_eq!(parse_record_type(&"BOGUS".to_string()), None);
}

#[test]
fn router_first_matching_route_wins() {
    let h = RouterZoneHandler::try_from_config(
        Name::root(),
        RouterConfig {
            routes: vec![
                route(&["AAAA", "MX"], "10.0.0.1:53"),
                route(&["A"], "10.0.0.2:53"),
                route(&[], "10.0.0.3:53"),
                route(&["TXT"], "10.0.0.4:53"),
            ],
        },
    )
    .unwrap();
    assert_eq!(h.num_routes(), 4);
    assert_eq!(h.matching_route(RecordType(28)), Some(0));
    assert_eq!(h.matching_route(RecordType(15)), Some(0));
    assert_eq!(h.matching_route(RecordType(1)), Some(1));
    assert_eq!(h.matching_route(RecordType(16)), Some(2));
    assert_eq!(h.route_forward(1), &forward("10.0.0.2:53"));
    assert_eq!(h.metrics_label(), "router");
}

#[test]
fn router_without_match_passes_on() {
    let h = RouterZoneHandler::try_from_config(
        Name::root(),
        RouterConfig { routes: vec![route(&["A"], "10.0.0.2:53")] },
    )
    .unwrap();
    assert_eq!(h.matching_route(RecordType(28)), None);
}

#[test]
fn router_rejects_unknown_record_types() {
    let r = RouterZoneHandler::try_from_config(
        Name::root(),
        RouterConfig { routes: vec![route(&["A"], "x"), route(&["MX", "NOPE", "ALSO"], "y")] },
    );
    assert_eq!(r.err(), Some("invalid record type in router route: NOPE".to_string()));
}

fn success(ttl: u32) -> LookupControlFlow {
    LookupControlFlow::Break(Ok(AuthLookup::Records { answers: vec![record(ttl)], additionals: None }))
}

fn failure(code: ResponseCode) -> LookupControlFlow {
    LookupControlFlow::Break(Err(LookupError::ResponseCode(code)))
}

#[test]
fn fastest_requires_a_forwarder() {
    let r = FastestZoneHandler::try_from_config(Name::root(), FastestConfig { forwards: vec![] });
    assert_eq!(r.err(), Some("fastest requires at least one forward configuration".to_string()));
    let h = FastestZoneHandler::try_from_config(
        Name::root(),
        FastestConfig { forwards: vec![forward("a"), forward("b")] },
    )
    .unwrap();
    assert_eq!(h.forwards().len(), 2);
    assert_eq!(h.metrics_label(), "fastest");
}

#[test]
fn fastest_first_success_wins_and_continues() {
    let mut race = FastestRace::new();
    assert!(race.observe(failure(ResponseCode::Refused)).is_none());
    assert!(race.observe(LookupControlFlow::Skip).is_none());
    match race.observe(success(42)) {
        Some(LookupControlFlow::Continue(Ok(AuthLookup::Records { answers, .. }))) => {
            assert_eq!(answers[0].ttl, 42)
        }
        other => panic!("unexpected {:?}", other),
    }
}

#[test]
fn fastest_reports_last_error_or_servfail() {
    let mut race = FastestRace::new();
    assert!(race.observe(failure(ResponseCode::Refused)).is_none());
    assert!(race.observe(failure(ResponseCode::NXDomain)).is_none());
    assert!(race.observe(LookupControlFlow::Skip).is_none());
    assert!(matches!(
        race.finish(),
        LookupControlFlow::Continue(Err(LookupError::ResponseCode(ResponseCode::NXDomain)))
    ));
    let race = FastestRace::new();
    assert!(matches!(
        race.finish(),
        LookupControlFlow::Continue(Err(LookupError::ResponseCode(ResponseCode::ServFail)))
    ));
}

#[test]
fn consult_passes_skips_and_errors_with_unordered_bounds() {
    let h = ttl_handler(500, 100);
    assert_eq!(h.config(), TtlModifierConfig { ttl_min: 500, ttl_max: 100 });
    assert!(matches!(h.consult(LookupControlFlow::Skip), LookupControlFlow::Skip));
    assert!(matches!(
        h.consult(LookupControlFlow::Break(Err(LookupError::ResponseCode(ResponseCode::ServFail)))),
        LookupControlFlow::Break(Err(LookupError::ResponseCode(ResponseCode::ServFail)))
    ));
    assert!(matches!(h.consult(LookupControlFlow::Continue(Ok(AuthLookup::Empty))), LookupControlFlow::Continue(Ok(AuthLookup::Empty))));
}

#[test]
fn consult_clamps_only_successes_with_records() {
    assert!(!ttl_handler(500, 100).has_ordered_bounds());
    assert!(ttl_handler(500, 0).has_ordered_bounds());
    assert!(ttl_handler(100, 100).has_ordered_bounds());
    assert!(!consult_would_clamp(&LookupControlFlow::Skip));
    assert!(!consult_would_clamp(&LookupControlFlow::Continue(Ok(AuthLookup::Empty))));
    assert!(!consult_would_clamp(&LookupControlFlow::Break(Err(LookupError::ResponseCode(ResponseCode::Refused)))));
    assert!(consult_would_clamp(&LookupControlFlow::Break(Ok(AuthLookup::Soa(vec![record(5)])))));
    assert!(consult_would_clamp(&LookupControlFlow::Continue(Ok(AuthLookup::Records {
        answers: vec![record(5)],
        additionals: None,
    }))));
}
