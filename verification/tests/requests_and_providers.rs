use cinevault::config::{cors_policy, log_level, parse_u16, port_from_setting, public_url_from_setting, CorsPolicy};
use cinevault::providers::{advertised_providers, clean_id, parse_provider, ProviderKind};
use cinevault::requests::{
    bad_gateway, details_error, health, internal_error, simple_health, DetailsQuery, HomepageQuery,
    LookupFailure, SearchQuery, StreamSource, StreamsQuery, SubtitlesQuery, SuggestQuery,
};

#[test]
fn clean_id_strips_one_known_prefix() {
    assert_eq!(clean_id("mb-12345"), "12345");
    assert_eq!(clean_id("c-abc"), "abc");
    assert_eq!(clean_id("mb-c-x"), "c-x");
    assert_eq!(clean_id("xyz"), "xyz");
    assert_eq!(clean_id("mb"), "mb");
    assert_eq!(clean_id(""), "");
}

#[test]
fn parse_provider_names_and_aliases() {
    assert_eq!(parse_provider(None), ProviderKind::MovieBox);
    assert_eq!(parse_provider(Some("mb")), ProviderKind::MovieBox);
    assert_eq!(parse_provider(Some("4K")), ProviderKind::FourKHdHub);
    assert_eq!(parse_provider(Some("FourKHdHub")), ProviderKind::FourKHdHub);
    assert_eq!(parse_provider(Some("CIRCLE")), ProviderKind::BdixCircleFtp);
    assert_eq!(parse_provider(Some("circleftp")), ProviderKind::BdixCircleFtp);
    assert_eq!(parse_provider(Some("DhakaFlix")), ProviderKind::BdixDhakaFlix);
    assert_eq!(parse_provider(Some("addons")), ProviderKind::Addons);
    assert_eq!(parse_provider(Some("netflix")), ProviderKind::MovieBox);
    assert_eq!(parse_provider(Some("")), ProviderKind::MovieBox);
}

#[test]
fn provider_listing_names_and_ids() {
    let all = ProviderKind::all();
    let names: Vec<String> = all.iter().map(|p| p.display_name()).collect();
    assert_eq!(names, vec!["MovieBox", "FourKHdHub", "BdixCircleFtp", "BdixDhakaFlix", "Addons"]);
    let ids: Vec<String> = all.iter().map(|p| p.id()).collect();
    assert_eq!(ids, vec!["moviebox", "fourkhdhub", "bdixcircleftp", "bdixdhakaflix", "addons"]);
}

#[test]
fn listed_ids_select_their_provider_except_bdix() {
    for p in ProviderKind::all() {
        let id = p.id();
        let selected = parse_provider(Some(id.as_str()));
        match p {
            ProviderKind::BdixCircleFtp | ProviderKind::BdixDhakaFlix => {
                assert_eq!(selected, ProviderKind::MovieBox)
            }
            other => assert_eq!(selected, other),
        }
    }
}

#[test]
fn advertised_names_select_every_provider_in_order() {
    let names = advertised_providers();
    let selected: Vec<ProviderKind> = names.iter().map(|n| parse_provider(Some(n.as_str()))).collect();
    assert_eq!(selected, ProviderKind::all());
}

#[test]
fn health_reports() {
    let s = simple_health("1.2.3");
    assert_eq!(s.status, "healthy");
    assert_eq!(s.version, "1.2.3");
    assert_eq!(s.service, "cinevault_server");
    let h = health("1.2.3");
    assert_eq!(h.status, "ok");
    assert_eq!(h.version, "1.2.3");
    assert_eq!(h.providers, vec!["moviebox", "fourkhdhub", "circleftp", "dhakaflix", "addons"]);
}

#[test]
fn suggest_skips_blank_terms() {
    assert_eq!(SuggestQuery { q: None }.term(), None);
    assert_eq!(SuggestQuery { q: Some(String::new()) }.term(), None);
    assert_eq!(SuggestQuery { q: Some(" \t\u{3000}\n".to_string()) }.term(), None);
    assert_eq!(SuggestQuery { q: Some(" dune ".to_string()) }.term(), Some(" dune ".to_string()));
}

#[test]
fn search_defaults() {
    let p = SearchQuery { q: "dune".to_string(), provider: None, page: None }.plan();
    assert_eq!(p.provider, ProviderKind::MovieBox);
    assert_eq!(p.query, "dune");
    assert_eq!(p.page, 1);
    let p = SearchQuery { q: "x".to_string(), provider: Some("4k".to_string()), page: Some(3) }.plan();
    assert_eq!(p.provider, ProviderKind::FourKHdHub);
    assert_eq!(p.page, 3);
}

#[test]
fn homepage_tabs() {
    let tab = |t: Option<&str>| HomepageQuery { tab: t.map(|s| s.to_string()), page: None }.plan().tab_id;
    assert_eq!(tab(None), "2");
    assert_eq!(tab(Some("all")), "2");
    assert_eq!(tab(Some("featured")), "2");
    assert_eq!(tab(Some("movie")), "1");
    assert_eq!(tab(Some("movies")), "1");
    assert_eq!(tab(Some("tv")), "3");
    assert_eq!(tab(Some("series")), "3");
    assert_eq!(tab(Some("7")), "7");
    assert_eq!(tab(Some("Movies")), "Movies");
    assert_eq!(HomepageQuery { tab: None, page: Some(4) }.plan().page, 4);
    assert_eq!(HomepageQuery { tab: None, page: None }.plan().page, 1);
}

#[test]
fn details_plan_and_errors() {
    let p = DetailsQuery { provider: Some("dhakaflix".to_string()) }.plan("mb-42");
    assert_eq!(p.provider, ProviderKind::BdixDhakaFlix);
    assert_eq!(p.id, "42");
    let e = details_error(LookupFailure::NotFound);
    assert_eq!((e.status, e.message.as_str()), (404, "Media not found"));
    let e = details_error(LookupFailure::Other("boom".to_string()));
    assert_eq!((e.status, e.message.as_str()), (500, "boom"));
    let e = internal_error("down".to_string());
    assert_eq!((e.status, e.message.as_str()), (500, "down"));
    let e = bad_gateway("Subtitle fetch", "timeout");
    assert_eq!((e.status, e.message.as_str()), (502, "Subtitle fetch failed: timeout"));
}

#[test]
fn streams_plans() {
    let q = StreamsQuery { provider: None, season: None, episode: None };
    let p = q.plan("mb-7", false).ok().unwrap();
    assert_eq!((p.source, p.id.as_str(), p.season, p.episode), (StreamSource::MovieBox, "7", 0, 0));

    let q = StreamsQuery { provider: Some("circle".to_string()), season: Some(2), episode: Some(5) };
    let p = q.plan("mb-7", false).ok().unwrap();
    assert_eq!((p.source, p.id.as_str(), p.season, p.episode), (StreamSource::CircleFtp, "mb-7", 2, 5));

    let q = StreamsQuery { provider: Some("4k".to_string()), season: None, episode: None };
    let e = q.plan("x", false).err().unwrap();
    assert_eq!((e.status, e.message.as_str()), (503, "4KHDHub not available"));
    let p = q.plan("c-x", true).ok().unwrap();
    assert_eq!((p.source, p.id.as_str()), (StreamSource::FourKHdHub, "c-x"));

    let q = StreamsQuery { provider: Some("DHAKAFLIX".to_string()), season: None, episode: Some(1) };
    let p = q.plan("mb-1", false).ok().unwrap();
    assert_eq!((p.source, p.id.as_str(), p.episode), (StreamSource::DhakaFlix, "mb-1", 1));

    let q = StreamsQuery { provider: Some("addons".to_string()), season: None, episode: None };
    let e = q.plan("x", true).err().unwrap();
    assert_eq!((e.status, e.message.as_str()), (400, "Addons streams not directly resolvable"));
}

#[test]
fn subtitles_plan() {
    let p = SubtitlesQuery { resource_id: None }.plan("c-99");
    assert_eq!((p.id.as_str(), p.resource_id.as_str()), ("99", ""));
    let p = SubtitlesQuery { resource_id: Some("r1".to_string()) }.plan("99");
    assert_eq!((p.id.as_str(), p.resource_id.as_str()), ("99", "r1"));
}

#[test]
fn port_settings() {
    assert_eq!(port_from_setting(None), 8080);
    assert_eq!(port_from_setting(Some("3000")), 3000);
    assert_eq!(port_from_setting(Some("+80")), 80);
    assert_eq!(port_from_setting(Some("65535")), 65535);
    assert_eq!(port_from_setting(Some("65536")), 8080);
    assert_eq!(port_from_setting(Some("99999999999999999999")), 8080);
    assert_eq!(port_from_setting(Some("-1")), 8080);
    assert_eq!(port_from_setting(Some(" 80")), 8080);
    assert_eq!(port_from_setting(Some("")), 8080);
    assert_eq!(port_from_setting(Some("+")), 8080);
    for s in ["0", "007", "+12", "65535", "65536", "8o", "++1", "-0"] {
        assert_eq!(parse_u16(s), s.parse::<u16>().ok(), "{s}");
    }
}

#[test]
fn public_url_and_log_level() {
    assert_eq!(public_url_from_setting(Some("https://x.io///")), Some("https://x.io".to_string()));
    assert_eq!(public_url_from_setting(Some("https://x.io")), Some("https://x.io".to_string()));
    assert_eq!(public_url_from_setting(None), None);
    assert_eq!(log_level(Some("debug"), Some("warn")), "debug");
    assert_eq!(log_level(None, Some("warn")), "warn");
    assert_eq!(log_level(None, None), "info");
}

#[test]
fn cors_settings() {
    assert!(matches!(cors_policy(None), CorsPolicy::AllowAny));
    assert!(matches!(cors_policy(Some("  ")), CorsPolicy::AllowAny));
    assert!(matches!(cors_policy(Some(" * ")), CorsPolicy::AllowAny));
    assert!(matches!(cors_policy(Some(" , ,")), CorsPolicy::AllowAny));
    match cors_policy(Some(" https://a.com , ,https://b.com,bad\u{7f}")) {
        CorsPolicy::AllowOrigins(o) => assert_eq!(o, vec!["https://a.com", "https://b.com"]),
        CorsPolicy::AllowAny => panic!("expected an origin list"),
    }
    match cors_policy(Some("*,https://c.com")) {
        CorsPolicy::AllowOrigins(o) => assert_eq!(o, vec!["*", "https://c.com"]),
        CorsPolicy::AllowAny => panic!("expected an origin list"),
    }
}
