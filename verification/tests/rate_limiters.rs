use dns_pipeline::dns::{LookupControlFlow, LookupError, RequestInfo, ResponseCode};
use dns_pipeline::domain::Name;
use dns_pipeline::proxy_protocol::{IpAddress, SourceAddr};
use dns_pipeline::rate_limiter::{
    default_prefix4, default_prefix6, default_requests, default_window, RateLimiterConfig,
    RateLimiterZoneHandler,
};
use dns_pipeline::tenant_rate_limiter::{
    TenantRateLimiterConfig, TenantRateLimiterZoneHandler,
};
use dns_pipeline::window::window_id;

fn v4(a: u8, b: u8, c: u8, d: u8) -> IpAddress {
    IpAddress::V4(u32::from_be_bytes([a, b, c, d]))
}

fn request_info(ip: IpAddress) -> RequestInfo {
    RequestInfo { src: SourceAddr { ip, port: 12345 }, tenant_id: None }
}

fn is_refused(f: &LookupControlFlow) -> bool {
    matches!(f, LookupControlFlow::Break(Err(LookupError::ResponseCode(ResponseCode::Refused))))
}

#[test]
fn rate_limiter_allows_then_refuses() {
    let mut handler = RateLimiterZoneHandler::try_from_config(
        Name::root(),
        RateLimiterConfig { requests: 2, window: 60, prefix4: 32, prefix6: 128 },
    )
    .unwrap();
    let info = request_info(v4(203, 0, 113, 50));
    for _ in 0..2 {
        match handler.lookup(Some(&info)) {
            LookupControlFlow::Skip => {}
            _ => panic!("expected skip under limit"),
        }
    }
    match handler.lookup(Some(&info)) {
        LookupControlFlow::Break(Err(LookupError::ResponseCode(ResponseCode::Refused))) => {}
        _ => panic!("expected refused over limit"),
    }
}

#[test]
fn rate_limiter_without_request_info_skips() {
    let mut handler = RateLimiterZoneHandler::try_from_config(
        Name::root(),
        RateLimiterConfig { requests: 0, window: 60, prefix4: 32, prefix6: 128 },
    )
    .unwrap();
    assert!(matches!(handler.lookup(None), LookupControlFlow::Skip));
    assert!(is_refused(&handler.lookup(Some(&request_info(v4(1, 2, 3, 4))))));
}

#[test]
fn rate_limiter_defaults() {
    assert_eq!(default_requests(), 500);
    assert_eq!(default_window(), 60);
    assert_eq!(default_prefix4(), 32);
    assert_eq!(default_prefix6(), 128);
}

#[test]
fn counts_start_over_in_a_new_window() {
    let mut h = RateLimiterZoneHandler::try_from_config(
        Name::root(),
        RateLimiterConfig { requests: 1, window: 60, prefix4: 32, prefix6: 128 },
    )
    .unwrap();
    let ip = v4(198, 51, 100, 1);
    assert!(h.check_at(ip, 120));
    assert!(!h.check_at(ip, 179));
    assert!(h.check_at(ip, 180));
    assert!(!h.check_at(ip, 239));
}

#[test]
fn addresses_in_one_prefix_share_a_bucket() {
    let mut h = RateLimiterZoneHandler::try_from_config(
        Name::root(),
        RateLimiterConfig { requests: 2, window: 60, prefix4: 24, prefix6: 48 },
    )
    .unwrap();
    assert_eq!(h.masked_ip(v4(192, 0, 2, 77)), v4(192, 0, 2, 0));
    assert!(h.check_at(v4(192, 0, 2, 1), 0));
    assert!(h.check_at(v4(192, 0, 2, 2), 1));
    assert!(!h.check_at(v4(192, 0, 2, 3), 2));
    assert!(h.check_at(v4(192, 0, 3, 1), 3));
    let a = IpAddress::V6(0x2001_0db8_0001_ffff_0000_0000_0000_0001);
    assert_eq!(h.masked_ip(a), IpAddress::V6(0x2001_0db8_0001_0000_0000_0000_0000_0000));
}

#[test]
fn prefixes_that_are_not_byte_multiples_mask_exactly() {
    let h = RateLimiterZoneHandler::try_from_config(
        Name::root(),
        RateLimiterConfig { requests: 1, window: 60, prefix4: 20, prefix6: 60 },
    )
    .unwrap();
    assert_eq!(h.masked_ip(v4(10, 255, 255, 255)), v4(10, 255, 240, 0));
    assert_eq!(
        h.masked_ip(IpAddress::V6(0x2001_0db8_0000_00ff_ffff_0000_0000_0001)),
        IpAddress::V6(0x2001_0db8_0000_00f0_0000_0000_0000_0000)
    );
}

#[test]
fn zero_and_full_prefixes() {
    let h = RateLimiterZoneHandler::try_from_config(
        Name::root(),
        RateLimiterConfig { requests: 1, window: 60, prefix4: 0, prefix6: 0 },
    )
    .unwrap();
    assert_eq!(h.masked_ip(v4(10, 1, 2, 3)), IpAddress::V4(0));
    assert_eq!(h.masked_ip(IpAddress::V6(u128::MAX)), IpAddress::V6(0));
    let h = RateLimiterZoneHandler::try_from_config(
        Name::root(),
        RateLimiterConfig { requests: 1, window: 60, prefix4: 200, prefix6: 200 },
    )
    .unwrap();
    assert_eq!(h.masked_ip(v4(10, 1, 2, 3)), v4(10, 1, 2, 3));
    assert_eq!(h.masked_ip(IpAddress::V6(u128::MAX)), IpAddress::V6(u128::MAX));
}

#[test]
fn ipv4_and_ipv6_buckets_are_distinct() {
    let mut h = RateLimiterZoneHandler::try_from_config(
        Name::root(),
        RateLimiterConfig { requests: 1, window: 60, prefix4: 32, prefix6: 128 },
    )
    .unwrap();
    assert!(h.check_at(IpAddress::V4(1), 5));
    assert!(h.check_at(IpAddress::V6(1), 5));
    assert!(!h.check_at(IpAddress::V4(1), 6));
    assert!(!h.check_at(IpAddress::V6(1), 6));
}

#[test]
fn window_of_zero_seconds_counts_as_one() {
    assert_eq!(window_id(125, 60), 2);
    assert_eq!(window_id(125, 0), 125);
    assert_eq!(window_id(125, 1), 125);
}

#[test]
fn rate_limiter_metadata() {
    let origin = Name::from_ascii("Example.COM.").unwrap();
    let h = RateLimiterZoneHandler::try_from_config(
        origin,
        RateLimiterConfig { requests: 1, window: 60, prefix4: 32, prefix6: 128 },
    )
    .unwrap();
    assert_eq!(h.metrics_label(), "rate_limiter");
    assert_eq!(h.origin().num_labels(), 2);
    assert!(matches!(h.nsec_records(), LookupControlFlow::Continue(Err(LookupError::Io(_)))));
    match h.nsec3_records() {
        LookupControlFlow::Continue(Err(LookupError::Io(msg))) => {
            assert_eq!(msg, "NSEC3 records are unimplemented for pipeline handlers")
        }
        _ => panic!("expected a continuing NSEC3 error"),
    }
}

fn tenant_info(tenant: Option<&str>) -> RequestInfo {
    RequestInfo {
        src: SourceAddr { ip: v4(203, 0, 113, 9), port: 5353 },
        tenant_id: tenant.map(|t| t.to_string()),
    }
}

#[test]
fn tenant_limiter_counts_per_tenant() {
    let mut h = TenantRateLimiterZoneHandler::try_from_config(
        Name::root(),
        TenantRateLimiterConfig { requests: 2, window: 60 },
    )
    .unwrap();
    assert!(h.check_at("alpha", 10));
    assert!(h.check_at("beta", 11));
    assert!(h.check_at("alpha", 12));
    assert!(!h.check_at("alpha", 13));
    assert!(h.check_at("beta", 14));
    assert!(!h.check_at("beta", 15));
    assert!(h.check_at("alpha", 60));
}

#[test]
fn tenant_limiter_passes_requests_without_tenant() {
    let mut h = TenantRateLimiterZoneHandler::try_from_config(
        Name::root(),
        TenantRateLimiterConfig { requests: 0, window: 60 },
    )
    .unwrap();
    assert!(matches!(h.lookup(None), LookupControlFlow::Skip));
    assert!(matches!(h.lookup(Some(&tenant_info(None))), LookupControlFlow::Skip));
    assert!(is_refused(&h.lookup(Some(&tenant_info(Some("t1"))))));
}

#[test]
fn tenant_limiter_allows_then_refuses() {
    let mut h = TenantRateLimiterZoneHandler::try_from_config(
        Name::root(),
        TenantRateLimiterConfig { requests: 1, window: 60 },
    )
    .unwrap();
    let info = tenant_info(Some("tenant"));
    assert!(matches!(h.lookup(Some(&info)), LookupControlFlow::Skip));
    assert!(is_refused(&h.lookup(Some(&info))));
    assert_eq!(h.metrics_label(), "tenant_rate_limiter");
    assert_eq!(dns_pipeline::tenant_rate_limiter::default_requests(), 400);
    assert_eq!(dns_pipeline::tenant_rate_limiter::default_window(), 60);
}

#[test]
fn tenant_limiter_keeps_many_tenants_apart() {
    let mut h = TenantRateLimiterZoneHandler::try_from_config(
        Name::root(),
        TenantRateLimiterConfig { requests: 1, window: 60 },
    )
    .unwrap();
    for i in 0..500 {
        assert!(h.check_at(&format!("tenant-{i}"), 120));
    }
    for i in 0..500 {
        assert!(!h.check_at(&format!("tenant-{i}"), 150));
    }
    assert!(h.check_at("Tenant-1", 150));
    assert!(h.check_at("tenant-1", 180));
}
