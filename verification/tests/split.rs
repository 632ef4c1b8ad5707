use dns_pipeline::dns::ForwardConfig;
use dns_pipeline::domain::{LowerName, Name};
use dns_pipeline::split::{
    default_allow_failure, default_refresh, fetch_outcome, parse_list_line, source_location,
    BlocklistSource, DomainSet, FetchOutcome, FetchReply, Reload, SourceLocation, SourceRead,
    SplitConfig, SplitLists, SplitZoneHandler,
};

fn lower(s: &str) -> LowerName {
    LowerName::new(&Name::from_ascii(s).unwrap())
}

fn handler(refresh: u64) -> SplitZoneHandler {
    SplitZoneHandler::try_from_config(
        Name::root(),
        SplitConfig {
            blocklist_source: vec![source("lists/bd.txt", false)],
            match_forward: ForwardConfig { name_servers: vec!["10.9.9.9:53".to_string()] },
            blocklist_refresh: refresh,
        },
        Some("/etc/zones".to_string()),
    )
    .unwrap()
}

fn source(s: &str, allow_failure: bool) -> BlocklistSource {
    BlocklistSource { source: s.to_string(), refresh: 0, allow_failure }
}

fn lists_of(h: &SplitZoneHandler, text: &str) -> SplitLists {
    h.load_lists(&vec![SourceRead::Text(text.to_string())]).unwrap()
}

#[test]
fn listed_domains_and_subdomains_match() {
    let h = handler(0);
    let lists = lists_of(&h, "# comment\nExample.com\n  .ads.test  # trailing\n\n\tbad..name\nlast.org");
    assert!(h.name_matches(&lower("example.com."), &lists));
    assert!(h.name_matches(&lower("WWW.EXAMPLE.COM."), &lists));
    assert!(h.name_matches(&lower("a.b.ads.test."), &lists));
    assert!(h.name_matches(&lower("last.org."), &lists));
    assert!(!h.name_matches(&lower("com."), &lists));
    assert!(!h.name_matches(&lower("example.net."), &lists));
    assert!(!h.name_matches(&lower("name."), &lists));
    assert!(!h.name_matches(&lower("."), &lists));
}

#[test]
fn list_lines() {
    assert!(parse_list_line(&"# only a comment".chars().collect()).is_none());
    assert!(parse_list_line(&"   \r".chars().collect()).is_none());
    assert!(parse_list_line(&"a..b".chars().collect()).is_none());
    assert!(parse_list_line(&"bad name".chars().collect()).is_none());
    let n = parse_list_line(&"\u{a0}..Foo.Example.\r".chars().collect()).unwrap();
    assert_eq!(n.num_labels(), 2);
    let mut set = DomainSet::new();
    set.insert(n);
    let h = handler(0);
    assert!(h.name_matches(&lower("foo.example"), &lists_of(&h, "foo.example")));
}

#[test]
fn empty_list_matches_nothing() {
    let h = handler(0);
    assert!(!h.name_matches(&lower("example.com."), &lists_of(&h, "")));
    assert!(!h.name_matches(&lower("example.com."), &SplitLists::new()));
}

fn two_sources(allow_first: bool, allow_second: bool) -> Vec<BlocklistSource> {
    vec![source("https://example.net/a.txt", allow_first), source("local.txt", allow_second)]
}

#[test]
fn allowed_fetch_failure_keeps_the_previous_list() {
    let h = handler(0);
    let sources = two_sources(true, false);
    let first = SplitLists::new()
        .reload(&sources, &vec![SourceRead::Text("ads.test".to_string()), SourceRead::Text("bd.example".to_string())])
        .unwrap();
    assert!(h.name_matches(&lower("x.ads.test."), &first));
    let second = first
        .reload(
            &sources,
            &vec![
                SourceRead::FetchFailed("HTTP fetch returned 503 for https://example.net/a.txt".to_string()),
                SourceRead::Text("new.example".to_string()),
            ],
        )
        .unwrap();
    assert!(h.name_matches(&lower("x.ads.test."), &second));
    assert!(h.name_matches(&lower("new.example."), &second));
    assert!(!h.name_matches(&lower("bd.example."), &second));
}

#[test]
fn allowed_fetch_failure_at_startup_gives_an_empty_list() {
    let sources = two_sources(true, false);
    let lists = SplitLists::new()
        .reload(&sources, &vec![SourceRead::FetchFailed("no route".to_string()), SourceRead::Text("bd.example".to_string())])
        .unwrap();
    let h = handler(0);
    assert!(h.name_matches(&lower("bd.example."), &lists));
    assert!(!h.name_matches(&lower("x.ads.test."), &lists));
}

#[test]
fn reload_fails_on_the_first_unallowed_failure() {
    let sources = two_sources(false, false);
    let r = SplitLists::new().reload(
        &sources,
        &vec![
            SourceRead::FetchFailed("HTTP fetch failed for https://example.net/a.txt".to_string()),
            SourceRead::FileFailed("unable to open local.txt".to_string()),
        ],
    );
    assert_eq!(r.err(), Some("HTTP fetch failed for https://example.net/a.txt".to_string()));
    let sources = two_sources(true, true);
    let r = SplitLists::new().reload(
        &sources,
        &vec![SourceRead::FetchFailed("x".to_string()), SourceRead::FileFailed("unable to open local.txt".to_string())],
    );
    assert_eq!(r.err(), Some("unable to open local.txt".to_string()));
    let h = handler(0);
    let r = h.load_lists(&vec![SourceRead::FetchFailed("HTTP read failed".to_string())]);
    assert_eq!(r.err(), Some("HTTP read failed".to_string()));
}

#[test]
fn names_parse() {
    assert_eq!(Name::from_ascii("www.example.com").unwrap().num_labels(), 3);
    assert!(!Name::from_ascii("www.example.com").unwrap().is_fqdn());
    assert!(Name::from_ascii("www.example.com.").unwrap().is_fqdn());
    assert_eq!(Name::from_ascii(".").unwrap().num_labels(), 0);
    assert!(Name::from_ascii("a..b").is_err());
    assert!(Name::from_ascii("-a.example").is_err());
    assert!(Name::from_ascii("a-b.example").is_ok());
    assert!(Name::from_ascii("*.example").is_ok());
    assert!(Name::from_ascii("a*.example").is_err());
    assert!(Name::from_ascii("_srv._tcp.example").is_ok());
    assert!(Name::from_ascii(&"x".repeat(64)).is_err());
    assert!(Name::from_ascii(&"x".repeat(63)).is_ok());
    let long = vec!["abcdefghi"; 26].join(".");
    assert!(Name::from_ascii(&long).is_err());
    let ok = vec!["abcdefghi"; 25].join(".");
    assert!(Name::from_ascii(&ok).is_ok());
}

#[test]
fn sources_are_remote_or_local() {
    assert_eq!(
        source_location(&source("https://example.net/list.txt", true)),
        SourceLocation::Remote("https://example.net/list.txt".to_string())
    );
    assert_eq!(
        source_location(&source("http://x/y", true)),
        SourceLocation::Remote("http://x/y".to_string())
    );
    assert_eq!(
        source_location(&source("default/blocklist.txt", true)),
        SourceLocation::Local("default/blocklist.txt".to_string())
    );
    assert_eq!(
        source_location(&source("httpx://odd", true)),
        SourceLocation::Local("httpx://odd".to_string())
    );
}

#[test]
fn fetch_outcomes() {
    let strict = source("http://x", false);
    let lenient = source("http://x", true);
    assert_eq!(fetch_outcome(&strict, FetchReply::Status(200)), FetchOutcome::UseBody);
    assert_eq!(fetch_outcome(&strict, FetchReply::Status(299)), FetchOutcome::UseBody);
    assert_eq!(fetch_outcome(&lenient, FetchReply::Status(404)), FetchOutcome::KeepPrevious);
    assert_eq!(fetch_outcome(&strict, FetchReply::Status(500)), FetchOutcome::Fail);
    assert_eq!(fetch_outcome(&lenient, FetchReply::TransportFailed), FetchOutcome::KeepPrevious);
    assert_eq!(fetch_outcome(&strict, FetchReply::TransportFailed), FetchOutcome::Fail);
    assert_eq!(fetch_outcome(&lenient, FetchReply::BodyFailed), FetchOutcome::KeepPrevious);
    assert_eq!(fetch_outcome(&strict, FetchReply::BodyFailed), FetchOutcome::Fail);
}

#[test]
fn split_configuration() {
    assert!(default_allow_failure());
    assert_eq!(default_refresh(), 3600);
    let r = SplitZoneHandler::try_from_config(
        Name::root(),
        SplitConfig {
            blocklist_source: vec![],
            match_forward: ForwardConfig { name_servers: vec![] },
            blocklist_refresh: 10,
        },
        None,
    );
    assert_eq!(r.err(), Some("split handler requires a zone directory".to_string()));
    let h = handler(0);
    assert_eq!(h.refresh_period(), None);
    assert_eq!(handler(30).refresh_period(), Some(30));
    assert_eq!(h.zone_dir(), "/etc/zones");
    assert_eq!(h.sources().len(), 1);
    assert_eq!(h.metrics_label(), "split");
}

#[test]
fn reload_source_by_source_stops_at_the_first_failure() {
    let sources = two_sources(false, false);
    let previous = SplitLists::new();
    let progress = Reload::new();
    assert_eq!(progress.count(), 0);
    let progress = progress.take(&previous, &sources[0], &SourceRead::Text("ads.test".to_string())).unwrap();
    assert_eq!(progress.count(), 1);
    let lists = progress.take(&previous, &sources[1], &SourceRead::Text("bd.example".to_string())).unwrap().finish();
    let h = handler(0);
    assert!(h.name_matches(&lower("x.ads.test."), &lists));
    assert!(h.name_matches(&lower("bd.example."), &lists));
    let failed = Reload::new().take(&lists, &sources[0], &SourceRead::FetchFailed("HTTP fetch returned 500".to_string()));
    assert_eq!(failed.err(), Some("HTTP fetch returned 500".to_string()));
    let kept = Reload::new()
        .take(&lists, &two_sources(true, false)[0], &SourceRead::FetchFailed("timeout".to_string()))
        .unwrap()
        .finish();
    assert!(h.name_matches(&lower("x.ads.test."), &kept));
    assert!(!h.name_matches(&lower("bd.example."), &kept));
}

#[test]
fn large_lists_match_by_suffix() {
    let h = handler(0);
    let text: String = (0..2000).map(|i| format!("host{i}.example\n")).collect();
    let lists = lists_of(&h, &text);
    assert!(h.name_matches(&lower("a.host1999.example."), &lists));
    assert!(h.name_matches(&lower("HOST0.EXAMPLE."), &lists));
    assert!(!h.name_matches(&lower("host2000.example."), &lists));
    assert!(!h.name_matches(&lower("example."), &lists));
}
