use cinevault::manifest::{manifest_response, rewrite_manifest};
use cinevault::providers::ProviderKind;
use cinevault::proxy::{
    forwardable_headers, is_forwarded_response_header, is_manifest_request, manifest_response_headers,
    media_response_headers, subtitle_response_headers, target_url,
};
use cinevault::server::{AppState, ClientHeaders};
use cinevault::streams::{is_dash, make_stream_proxy_url, Mirror, Release};
use cinevault::subtitles::{srt_to_vtt, subtitle_options, SubtitleTrack};
use cinevault::ticket_id::{parse_ticket_id, ticket_id_text};
use cinevault::tickets::{StreamTicket, TicketError, TicketStore, TICKET_LIFETIME_NANOS};

fn ticket(url: &str, at: u64) -> StreamTicket {
    StreamTicket {
        url: url.to_string(),
        headers: vec![("Referer".to_string(), "https://ref/".to_string())],
        created_at: at,
    }
}

#[test]
fn ticket_ids_are_lower_hex() {
    assert_eq!(ticket_id_text(0), "0");
    assert_eq!(ticket_id_text(255), "ff");
    assert_eq!(ticket_id_text(0xdead_beef), "deadbeef");
    assert_eq!(ticket_id_text(u128::MAX), "f".repeat(32));
    for n in [0u128, 1, 16, 4096, 0x1234_5678_9abc, u128::MAX] {
        assert_eq!(ticket_id_text(n), format!("{:x}", n));
        assert_eq!(parse_ticket_id(&ticket_id_text(n)), Some(n));
    }
    assert_eq!(parse_ticket_id("00ff"), None);
    assert_eq!(parse_ticket_id("FF"), None);
    assert_eq!(parse_ticket_id(""), None);
    assert_eq!(parse_ticket_id("xyz"), None);
    assert_eq!(parse_ticket_id(&"f".repeat(33)), None);
}

#[test]
fn resolve_after_issue() {
    let mut store = TicketStore::new();
    let id = store.issue_with_number(0xabc, ticket("https://cdn/v.mp4", 1_000));
    assert_eq!(id, "abc");
    let t = store.resolve("abc", 1_000 + TICKET_LIFETIME_NANOS).ok().unwrap();
    assert_eq!(t.url, "https://cdn/v.mp4");
    assert_eq!(t.headers, vec![("Referer".to_string(), "https://ref/".to_string())]);
    assert_eq!(t.created_at, 1_000);
    assert_eq!(store.resolve("abc", 1_001 + TICKET_LIFETIME_NANOS).err(), Some(TicketError::Expired));
    assert_eq!(store.resolve("0abc", 2_000).err(), Some(TicketError::NotFound));
    assert_eq!(store.resolve("abd", 2_000).err(), Some(TicketError::NotFound));
    assert_eq!(store.resolve("abc", 0).ok().map(|t| t.created_at), Some(1_000));
}

#[test]
fn ticket_errors_answer() {
    assert_eq!(TicketError::NotFound.status(), 404);
    assert_eq!(TicketError::NotFound.message(), "Stream ticket invalid or expired");
    assert_eq!(TicketError::Expired.status(), 410);
    assert_eq!(TicketError::Expired.message(), "Stream ticket expired");
}

#[test]
fn random_issue_resolves() {
    let mut store = TicketStore::new();
    let id = store.issue(ticket("https://cdn/a.mpd", 5));
    assert!(parse_ticket_id(&id).is_some());
    assert_eq!(store.resolve(&id, 10).ok().unwrap().url, "https://cdn/a.mpd");
    assert_eq!(store.len(), 1);
}

#[test]
fn purge_keeps_only_young_tickets() {
    let mut store = TicketStore::new();
    let now = 10 * TICKET_LIFETIME_NANOS;
    store.issue_with_number(1, ticket("u1", now - TICKET_LIFETIME_NANOS - 1));
    store.issue_with_number(2, ticket("u2", now - TICKET_LIFETIME_NANOS));
    store.issue_with_number(3, ticket("u3", now - TICKET_LIFETIME_NANOS + 1));
    store.issue_with_number(4, ticket("u4", now + 5));
    // At exactly the lifetime a lookup still succeeds but a sweep drops it.
    assert!(store.resolve("2", now).is_ok());
    store.purge_expired(now);
    assert_eq!(store.len(), 2);
    assert_eq!(store.resolve("1", now).err(), Some(TicketError::NotFound));
    assert_eq!(store.resolve("2", now).err(), Some(TicketError::NotFound));
    assert_eq!(store.resolve("3", now).ok().unwrap().url, "u3");
    assert_eq!(store.resolve("4", now).ok().unwrap().url, "u4");
}

fn mirror(label: &str, url: &str) -> Mirror {
    Mirror {
        label: label.to_string(),
        resolver_url: url.to_string(),
        headers: vec![("User-Agent".to_string(), "x".to_string())],
        direct_file: true,
    }
}

#[test]
fn dash_detection_and_proxy_urls() {
    assert!(is_dash("https://cdn/x/manifest.mpd"));
    assert!(is_dash("https://cdn/dash/seg"));
    assert!(!is_dash("https://cdn/video.mp4"));
    assert!(!is_dash("https://cdn/mpd"));
    assert_eq!(make_stream_proxy_url("http://h", "ab", false), "http://h/api/v1/stream/proxy/ab");
    assert_eq!(make_stream_proxy_url("http://h", "ab", true), "http://h/api/v1/stream/proxy/ab/manifest.mpd");
}

#[test]
fn publishing_releases_issues_one_ticket_per_mirror() {
    let mut store = TicketStore::new();
    let releases = vec![
        Release {
            provider: ProviderKind::MovieBox,
            filename: "a.mkv".to_string(),
            quality: Some("1080p".to_string()),
            codec: None,
            language: Some("en".to_string()),
            size_bytes: Some(10),
            season: Some(1),
            episode: Some(2),
            mirrors: vec![mirror("m1", "https://cdn/a.mp4"), mirror("m2", "https://cdn/dash/a.mpd")],
            resource_id: Some("r".to_string()),
        },
        Release {
            provider: ProviderKind::BdixDhakaFlix,
            filename: "b.mkv".to_string(),
            quality: None,
            codec: Some("x265".to_string()),
            language: None,
            size_bytes: None,
            season: None,
            episode: None,
            mirrors: vec![],
            resource_id: None,
        },
    ];
    let web = store.publish_releases(&releases, "https://gw", 77);
    assert_eq!(web.len(), 2);
    assert_eq!(store.len(), 2);
    assert_eq!(web[0].filename, "a.mkv");
    assert_eq!(web[0].quality.as_deref(), Some("1080p"));
    assert_eq!(web[0].season, Some(1));
    assert_eq!(web[0].resource_id.as_deref(), Some("r"));
    assert_eq!(web[1].provider, ProviderKind::BdixDhakaFlix);
    assert_eq!(web[1].codec.as_deref(), Some("x265"));
    assert!(web[1].mirrors.is_empty());

    let m0 = &web[0].mirrors[0];
    assert_eq!(m0.label, "m1");
    assert_eq!(m0.resolver_url, "https://cdn/a.mp4");
    assert!(m0.direct_file);
    let id0 = m0.proxy_url.strip_prefix("https://gw/api/v1/stream/proxy/").unwrap();
    let t0 = store.resolve(id0, 80).ok().unwrap();
    assert_eq!(t0.url, "https://cdn/a.mp4");
    assert_eq!(t0.created_at, 77);
    assert_eq!(t0.headers, vec![("User-Agent".to_string(), "x".to_string())]);
    let plan0 = store.plan_proxy(id0, None, 80).ok().unwrap();
    assert!(!plan0.manifest);
    assert_eq!(plan0.url, "https://cdn/a.mp4");

    let m1 = &web[0].mirrors[1];
    let rest = m1.proxy_url.strip_prefix("https://gw/api/v1/stream/proxy/").unwrap();
    let id1 = rest.strip_suffix("/manifest.mpd").unwrap();
    assert_eq!(store.resolve(id1, 80).ok().unwrap().url, "https://cdn/dash/a.mpd");
    // The handed-out manifest URL is planned as a manifest fetch of the ticket URL.
    let plan = store.plan_proxy(id1, Some("manifest.mpd"), 80).ok().unwrap();
    assert!(plan.manifest);
    assert_eq!(plan.url, "https://cdn/dash/a.mpd");
}

#[test]
fn manifest_requests_and_targets() {
    assert!(is_manifest_request("https://cdn/v.mpd", None));
    assert!(!is_manifest_request("https://cdn/v.mp4", None));
    assert!(is_manifest_request("https://cdn/v.mp4", Some("//index.mpd")));
    assert!(is_manifest_request("https://cdn/v.mp4", Some("other.mpd")));
    assert!(!is_manifest_request("https://cdn/v.mpd", Some("seg-1.m4s")));
    assert_eq!(target_url("https://cdn/a/v.mpd", Some("/seg-1.m4s")), "https://cdn/a/seg-1.m4s");
    assert_eq!(target_url("https://cdn/a/v.mpd", None), "https://cdn/a/v.mpd");
    assert_eq!(target_url("noslash", Some("x")), "noslash");
}

#[test]
fn proxy_plans() {
    let mut store = TicketStore::new();
    let mut t = ticket("https://cdn/a/v.mpd", 0);
    t.headers.push(("bad name".to_string(), "v".to_string()));
    t.headers.push(("X-Ok".to_string(), "line\nbreak".to_string()));
    t.headers.push(("X-Tab".to_string(), "a\tb é".to_string()));
    store.issue_with_number(9, t);
    let p = store.plan_proxy("9", None, 1).ok().unwrap();
    assert!(p.manifest);
    assert_eq!(p.url, "https://cdn/a/v.mpd");
    assert_eq!(
        p.headers,
        vec![
            ("Referer".to_string(), "https://ref/".to_string()),
            ("X-Tab".to_string(), "a\tb é".to_string()),
        ]
    );
    let p = store.plan_proxy("9", Some("chunk-3.m4s"), 1).ok().unwrap();
    assert!(!p.manifest);
    assert_eq!(p.url, "https://cdn/a/chunk-3.m4s");
    assert_eq!(store.plan_proxy("8", None, 1).err(), Some(TicketError::NotFound));
    assert_eq!(store.plan_proxy("9", None, TICKET_LIFETIME_NANOS + 1).err(), Some(TicketError::Expired));
}

#[test]
fn forwardable_headers_follow_http_rules() {
    let h = vec![
        ("".to_string(), "v".to_string()),
        ("Accept".to_string(), "*/*".to_string()),
        ("X(y)".to_string(), "v".to_string()),
        ("x".to_string(), "\u{7f}".to_string()),
    ];
    assert_eq!(forwardable_headers(&h), vec![("Accept".to_string(), "*/*".to_string())]);
}

#[test]
fn rewrite_replaces_existing_base_url() {
    let m = "<MPD><BaseURL>https://old/</BaseURL><Period id=\"1\"></Period></MPD>";
    let r = rewrite_manifest(m, "https://gw", "ab");
    assert_eq!(
        r,
        "<MPD><BaseURL>https://gw/api/v1/stream/proxy/ab/</BaseURL><Period id=\"1\"></Period></MPD>"
    );
}

#[test]
fn rewrite_inserts_after_period_and_normalizes_codecs() {
    let m = "<MPD><Period id=\"1\"><Rep codecs=\"hev1\"/><Rep codecs=\"hev1.2.4\"/></Period></MPD>";
    let r = rewrite_manifest(m, "http://h", "1");
    assert_eq!(
        r,
        "<MPD><Period id=\"1\"><BaseURL>http://h/api/v1/stream/proxy/1/</BaseURL><Rep codecs=\"hvc1.1.6.L93.90\"/><Rep codecs=\"hvc1.2.4\"/></Period></MPD>"
    );
}

#[test]
fn rewrite_falls_back_to_mpd_close() {
    let r = rewrite_manifest("<MPD></MPD>", "http://h", "2");
    assert_eq!(r, "<MPD><BaseURL>http://h/api/v1/stream/proxy/2/</BaseURL></MPD>");
    let r = rewrite_manifest("<MPD><Period", "http://h", "2");
    assert_eq!(r, "<MPD><Period");
    let r = rewrite_manifest("<MPD><BaseURL>x", "http://h", "2");
    assert_eq!(r, "<MPD><BaseURL>x");
}

#[test]
fn upstream_response_headers_forwarded() {
    for name in ["content-type", "Content-Length", "CONTENT-RANGE", "accept-ranges", "ETag", "last-modified"] {
        assert!(is_forwarded_response_header(name), "{name}");
    }
    for name in ["set-cookie", "content-typ", "x-etag", ""] {
        assert!(!is_forwarded_response_header(name), "{name}");
    }
}

#[test]
fn response_header_lists() {
    let m = manifest_response_headers(1234);
    assert_eq!(m[0], ("content-type".to_string(), "application/dash+xml; charset=utf-8".to_string()));
    assert_eq!(m[1], ("content-length".to_string(), "1234".to_string()));
    assert_eq!(m.len(), 6);
    let media = media_response_headers();
    assert_eq!(media[0], ("accept-ranges".to_string(), "bytes".to_string()));
    assert_eq!(media[1], ("access-control-allow-origin".to_string(), "*".to_string()));
    assert_eq!(media.len(), 5);
    let s = subtitle_response_headers();
    assert_eq!(
        s,
        vec![
            ("content-type".to_string(), "text/vtt; charset=utf-8".to_string()),
            ("access-control-allow-origin".to_string(), "*".to_string()),
        ]
    );
}

#[test]
fn srt_is_converted_to_webvtt() {
    let srt = "1\r\n00:00:01,000 --> 00:00:02,500\r\nHello, world\r\n\r\n2\n00:00:03,000 --> 00:00:04,000\nBye";
    let vtt = srt_to_vtt(srt);
    assert_eq!(
        vtt,
        "WEBVTT\n\n1\n00:00:01.000 --> 00:00:02.500\nHello, world\n\n2\n00:00:03.000 --> 00:00:04.000\nBye\n"
    );
    assert_eq!(srt_to_vtt(&vtt), vtt);
    assert_eq!(srt_to_vtt(""), "WEBVTT\n\n");
    assert_eq!(srt_to_vtt("a\r"), "WEBVTT\n\na\r\n");
}

#[test]
fn webvtt_passes_through() {
    let v = "  \nWEBVTT\n\n00:01.000 --> 00:02.000\nHi, there";
    assert_eq!(srt_to_vtt(v), v);
}

#[test]
fn subtitle_options_carry_encoded_proxy_urls() {
    let tracks = vec![
        SubtitleTrack { name: "English".to_string(), url: "https://s.io/a b.srt?x=1&y=é".to_string() },
        SubtitleTrack { name: "Empty".to_string(), url: String::new() },
    ];
    let opts = subtitle_options(&tracks, "https://gw");
    assert_eq!(opts.len(), 2);
    assert_eq!(opts[0].name, "English");
    assert_eq!(opts[0].url, "https://s.io/a b.srt?x=1&y=é");
    assert_eq!(
        opts[0].proxy_url,
        "https://gw/api/v1/subtitles/proxy?url=https%3A%2F%2Fs%2Eio%2Fa%20b%2Esrt%3Fx%3D1%26y%3D%C3%A9"
    );
    assert_eq!(opts[1].proxy_url, "https://gw/api/v1/subtitles/proxy?url=");
}

fn headers(fh: Option<&[u8]>, h: Option<&[u8]>, p: Option<&[u8]>) -> ClientHeaders {
    ClientHeaders {
        forwarded_host: fh.map(|b| b.to_vec()),
        host: h.map(|b| b.to_vec()),
        forwarded_proto: p.map(|b| b.to_vec()),
    }
}

#[test]
fn base_url_choices() {
    let configured = AppState { server_port: 8080, public_url: Some("https://pub.example///".to_string()) };
    assert_eq!(configured.base_url(None), "https://pub.example");
    assert_eq!(configured.base_url(Some(&headers(Some(b"a"), None, None))), "https://pub.example");

    let state = AppState { server_port: 9000, public_url: Some(String::new()) };
    assert_eq!(state.base_url(None), "http://localhost:9000");
    assert_eq!(state.base_url(Some(&headers(None, None, None))), "http://localhost:9000");
    assert_eq!(state.base_url(Some(&headers(None, Some(b"localhost:9000"), None))), "http://localhost:9000");
    assert_eq!(state.base_url(Some(&headers(None, Some(b"127.0.0.1"), None))), "http://127.0.0.1");
    assert_eq!(state.base_url(Some(&headers(None, Some(b"tv.example"), None))), "https://tv.example");
    assert_eq!(
        state.base_url(Some(&headers(Some(b"front.example"), Some(b"inner"), Some(b"http")))),
        "http://front.example"
    );
    assert_eq!(state.base_url(Some(&headers(Some(b"h\xc3\xa9"), Some(b"inner"), None))), "http://localhost:9000");
    assert_eq!(
        state.base_url(Some(&headers(None, Some(b"x.io"), Some(b"\xff")))),
        "https://x.io"
    );
    let none = AppState { server_port: 0, public_url: None };
    assert_eq!(none.base_url(None), "http://localhost:0");
}

#[test]
fn subtitle_query_decodes_to_the_listed_url() {
    let tracks = vec![
        SubtitleTrack { name: "a".to_string(), url: "https://s.io/ä ö/x.srt?k=v&w=%41".to_string() },
        SubtitleTrack { name: "b".to_string(), url: "plain".to_string() },
    ];
    for opt in subtitle_options(&tracks, "http://gw") {
        let q = opt.proxy_url.strip_prefix("http://gw/api/v1/subtitles/proxy?url=").unwrap();
        assert!(q.chars().all(|c| c.is_ascii_alphanumeric() || c == '%'));
        let decoded = percent_encoding::percent_decode_str(q).decode_utf8().unwrap();
        assert_eq!(decoded, opt.url);
    }
}

#[test]
fn manifest_answer_counts_body_bytes() {
    let a = manifest_response("<MPD>é</MPD>", "http://h", "3");
    assert_eq!(a.status, 200);
    assert_eq!(a.body, "<MPD>é<BaseURL>http://h/api/v1/stream/proxy/3/</BaseURL></MPD>");
    assert_eq!(a.headers[1], ("content-length".to_string(), a.body.len().to_string()));
    assert_eq!(a.headers.len(), 6);
}
