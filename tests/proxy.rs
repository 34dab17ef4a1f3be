use hls_proxy::attr::parse_attr_value;
use hls_proxy::headers::Headers;
use hls_proxy::playlist::{rewrite_m3u8, RewriteError};
use hls_proxy::policy::{
    add_stream_cors_headers, cors_only_headers, is_playlist, passthrough_response_headers,
    playlist_response_headers, should_rewrite,
};
use hls_proxy::request::{
    on_fetch_event, proxy_path, request_origin, start_fetch, upstream_request_headers, validate,
    FetchEvent, FetchStep, Method, Phase, Rejection, Validated,
};
use hls_proxy::urls::ParsedUrl;

const BASE: &str = "https://a.com/path/index.m3u8";
const ORIGIN: &str = "https://proxy.example";

fn value_of<'a>(h: &'a Headers, name: &str) -> Vec<&'a str> {
    h.entries()
        .iter()
        .filter(|(n, _)| n == name)
        .map(|(_, v)| v.as_str())
        .collect()
}

fn assert_cors(h: &Headers) {
    assert_eq!(value_of(h, "access-control-allow-origin"), vec!["*"]);
    assert_eq!(value_of(h, "access-control-allow-methods"), vec!["GET, HEAD, OPTIONS"]);
    assert_eq!(
        value_of(h, "access-control-expose-headers"),
        vec!["Content-Length, Content-Range, Content-Type, Accept-Ranges"]
    );
}

fn headers_of(pairs: &[(&str, &str)]) -> Headers {
    let mut h = Headers::new();
    for (n, v) in pairs {
        h.append(n.to_string(), v.to_string());
    }
    h
}

#[test]
fn attr_value_double_quoted() {
    assert_eq!(
        parse_attr_value("\"key.bin\",IV=0x1234"),
        (Some("key.bin".to_string()), 0, 9)
    );
}

#[test]
fn attr_value_single_quoted() {
    assert_eq!(parse_attr_value("'k,ey'rest"), (Some("k,ey".to_string()), 0, 6));
}

#[test]
fn attr_value_unquoted_until_comma() {
    assert_eq!(parse_attr_value("key.bin,IV=1"), (Some("key.bin".to_string()), 0, 7));
}

#[test]
fn attr_value_unquoted_until_end() {
    assert_eq!(parse_attr_value("key.bin"), (Some("key.bin".to_string()), 0, 7));
}

#[test]
fn attr_value_empty_and_unterminated() {
    assert_eq!(parse_attr_value(""), (None, 0, 0));
    assert_eq!(parse_attr_value("\"key.bin"), (None, 0, 0));
}

#[test]
fn attr_value_escaped_quote_truncates() {
    assert_eq!(parse_attr_value("\"a\\\"b\""), (Some("a\\".to_string()), 0, 4));
}

#[test]
fn relative_segment_is_proxied() {
    let out = rewrite_m3u8("segment1.ts", BASE, ORIGIN, "/stream").unwrap();
    assert_eq!(
        out,
        "https://proxy.example/stream?url=https%3A%2F%2Fa.com%2Fpath%2Fsegment1.ts"
    );
}

#[test]
fn key_uri_is_proxied_in_place() {
    let out = rewrite_m3u8(
        "#EXT-X-KEY:METHOD=AES-128,URI=\"key.bin\",IV=0x1234",
        BASE,
        ORIGIN,
        "/stream",
    )
    .unwrap();
    assert_eq!(
        out,
        "#EXT-X-KEY:METHOD=AES-128,URI=\"https://proxy.example/stream?url=https%3A%2F%2Fa.com%2Fpath%2Fkey.bin\",IV=0x1234"
    );
}

#[test]
fn key_without_uri_is_unchanged() {
    let line = "#EXT-X-KEY:METHOD=NONE";
    assert_eq!(rewrite_m3u8(line, BASE, ORIGIN, "/stream").unwrap(), line);
}

#[test]
fn key_with_unterminated_quote_is_unchanged() {
    let line = "#EXT-X-KEY:METHOD=AES-128,URI=\"key.bin";
    assert_eq!(rewrite_m3u8(line, BASE, ORIGIN, "/stream").unwrap(), line);
}

#[test]
fn key_unquoted_uri_comes_back_quoted() {
    let out = rewrite_m3u8(
        "#EXT-X-KEY:METHOD=AES-128,URI=https://k.example/k?id=1,IV=0x1",
        BASE,
        ORIGIN,
        "/api/proxy/stream",
    )
    .unwrap();
    assert_eq!(
        out,
        "#EXT-X-KEY:METHOD=AES-128,URI=\"https://proxy.example/api/proxy/stream?url=https%3A%2F%2Fk.example%2Fk%3Fid%3D1\",IV=0x1"
    );
}

#[test]
fn rewrite_keeps_line_count_and_order() {
    let input = "#EXTM3U\n#EXT-X-VERSION:3\n\n#EXTINF:10,\nseg0.ts\r\n#EXTINF:10,\n/abs/seg1.ts\n  https://b.com/seg2.ts  ";
    let out = rewrite_m3u8(input, BASE, ORIGIN, "/stream").unwrap();
    assert_eq!(out.lines().count(), input.lines().count());
    let lines: Vec<&str> = out.lines().collect();
    assert_eq!(lines[0], "#EXTM3U");
    assert_eq!(lines[1], "#EXT-X-VERSION:3");
    assert_eq!(lines[2], "");
    assert_eq!(lines[3], "#EXTINF:10,");
    assert_eq!(
        lines[4],
        "https://proxy.example/stream?url=https%3A%2F%2Fa.com%2Fpath%2Fseg0.ts"
    );
    assert_eq!(
        lines[6],
        "https://proxy.example/stream?url=https%3A%2F%2Fa.com%2Fabs%2Fseg1.ts"
    );
    assert_eq!(
        lines[7],
        "https://proxy.example/stream?url=https%3A%2F%2Fb.com%2Fseg2.ts"
    );
}

#[test]
fn rewrite_of_empty_playlist_is_empty() {
    assert_eq!(rewrite_m3u8("", BASE, ORIGIN, "/stream").unwrap(), "");
}

#[test]
fn rewrite_with_bad_base_fails() {
    assert!(matches!(
        rewrite_m3u8("#EXTM3U", "not a url", ORIGIN, "/stream"),
        Err(RewriteError::InvalidBase(_))
    ));
}

#[test]
fn rewrite_with_unresolvable_reference_fails() {
    assert!(matches!(
        rewrite_m3u8("#EXTM3U\nhttp://[::1", BASE, ORIGIN, "/stream"),
        Err(RewriteError::Unresolvable(_))
    ));
}

#[test]
fn content_type_alone_marks_playlist() {
    assert!(is_playlist("application/vnd.apple.mpegurl", "https://a.com/live"));
    assert!(is_playlist("Application/X-MpegURL; charset=utf-8", "https://a.com/live"));
}

#[test]
fn m3u8_url_alone_marks_playlist() {
    assert!(is_playlist("", "https://a.com/live/INDEX.M3U8"));
    assert!(!is_playlist("video/mp2t", "https://a.com/seg.ts"));
}

#[test]
fn segment_gets_long_immutable_cache() {
    let h = passthrough_response_headers(headers_of(&[("content-type", "video/mp2t")]), "https://a.com/SEG.TS");
    assert_eq!(value_of(&h, "cache-control"), vec!["public, max-age=86400, immutable"]);
    assert_cors(&h);
}

#[test]
fn mp4_gets_hour_cache() {
    let h = passthrough_response_headers(
        headers_of(&[("cache-control", "no-store")]),
        "https://a.com/movie.mp4",
    );
    assert_eq!(value_of(&h, "cache-control"), vec!["public, max-age=3600"]);
}

#[test]
fn other_url_keeps_upstream_cache() {
    let h = passthrough_response_headers(
        headers_of(&[("cache-control", "no-store")]),
        "https://a.com/file.bin",
    );
    assert_eq!(value_of(&h, "cache-control"), vec!["no-store"]);
    assert_cors(&h);
}

#[test]
fn playlist_headers_are_overridden() {
    let h = playlist_response_headers(headers_of(&[
        ("content-length", "123"),
        ("content-type", "text/plain"),
        ("etag", "x"),
    ]));
    assert!(value_of(&h, "content-length").is_empty());
    assert_eq!(value_of(&h, "content-type"), vec!["application/vnd.apple.mpegurl"]);
    assert_eq!(
        value_of(&h, "cache-control"),
        vec!["public, max-age=10, stale-while-revalidate=30"]
    );
    assert_eq!(value_of(&h, "etag"), vec!["x"]);
    assert_cors(&h);
}

#[test]
fn preflight_and_rejections_carry_cors() {
    assert_cors(&cors_only_headers());
    let mut h = headers_of(&[("access-control-allow-origin", "https://x")]);
    add_stream_cors_headers(&mut h);
    assert_cors(&h);
}

#[test]
fn non_http_schemes_are_rejected() {
    for url in ["ftp://a.com/x", "file:///etc/passwd", "data:text/plain,hi", "not a url", "http://"] {
        match validate(Method::Get, url) {
            Err(e) => {
                assert!(matches!(e, Rejection::InvalidUrl));
                assert_eq!(e.status(), 400);
            }
            Ok(_) => panic!("accepted {url}"),
        }
    }
}

#[test]
fn url_length_boundary() {
    let prefix = "http://a.com/";
    let ok = format!("{}{}", prefix, "a".repeat(6000 - prefix.len()));
    let long = format!("{}{}", prefix, "a".repeat(6001 - prefix.len()));
    assert!(matches!(validate(Method::Get, &ok), Ok(Validated::Proxy(_))));
    match validate(Method::Get, &long) {
        Err(e) => {
            assert!(matches!(e, Rejection::UrlTooLong));
            assert_eq!(e.status(), 400);
        }
        Ok(_) => panic!("accepted a URL of 6001 characters"),
    }
}

#[test]
fn methods_and_empty_url() {
    assert!(matches!(validate(Method::Options, ""), Ok(Validated::Preflight)));
    let e = validate(Method::Other, "https://a.com/").err().unwrap();
    assert!(matches!(e, Rejection::MethodNotAllowed));
    assert_eq!(e.status(), 405);
    assert!(matches!(validate(Method::Head, ""), Err(Rejection::UrlRequired)));
    assert!(matches!(validate(Method::Head, "https://a.com/v.ts"), Ok(Validated::Proxy(_))));
}

#[test]
fn forbidden_first_attempt_retries_once_without_credentials() {
    let target = ParsedUrl::parse("https://a.com/path/v.ts").unwrap();
    let sent = upstream_request_headers(&target, Some("bytes=0-99"));
    assert_eq!(value_of(&sent, "origin"), vec!["https://a.com"]);
    assert_eq!(value_of(&sent, "referer"), vec!["https://a.com/"]);
    let (phase, step) = start_fetch(sent);
    assert_eq!(phase, Phase::FirstAttempt);
    let sent = match step {
        FetchStep::Send { headers, timeout_secs } => {
            assert_eq!(timeout_secs, 15);
            headers
        }
        _ => panic!("first step must send"),
    };
    let (phase, step) = on_fetch_event(phase, FetchEvent::Responded(403), sent);
    assert_eq!(phase, Phase::RetryWithoutCredentials);
    let retry = match step {
        FetchStep::Send { headers, timeout_secs } => {
            assert_eq!(timeout_secs, 10);
            headers
        }
        _ => panic!("a 403 must be retried"),
    };
    assert!(value_of(&retry, "origin").is_empty());
    assert!(value_of(&retry, "referer").is_empty());
    assert_eq!(value_of(&retry, "range"), vec!["bytes=0-99"]);
    assert_eq!(value_of(&retry, "user-agent").len(), 1);
    let (phase, step) = on_fetch_event(phase, FetchEvent::Responded(403), retry);
    assert_eq!(phase, Phase::Done);
    assert!(matches!(step, FetchStep::Fail(Rejection::UpstreamStatus(403))));
}

#[test]
fn final_outcomes() {
    let (p, s) = on_fetch_event(Phase::FirstAttempt, FetchEvent::Responded(206), Headers::new());
    assert_eq!(p, Phase::Done);
    assert!(matches!(s, FetchStep::Deliver(206)));
    let (_, s) = on_fetch_event(Phase::FirstAttempt, FetchEvent::Responded(404), Headers::new());
    match s {
        FetchStep::Fail(e) => {
            assert!(matches!(e, Rejection::UpstreamStatus(404)));
            assert_eq!(e.status(), 502);
        }
        _ => panic!("404 must fail"),
    }
    let (_, s) = on_fetch_event(Phase::RetryWithoutCredentials, FetchEvent::TimedOut, Headers::new());
    match s {
        FetchStep::Fail(e) => assert_eq!(e.status(), 504),
        _ => panic!("a timeout must fail"),
    }
    let (_, s) = on_fetch_event(
        Phase::FirstAttempt,
        FetchEvent::TransportFailed("refused".to_string()),
        Headers::new(),
    );
    assert!(matches!(s, FetchStep::Fail(Rejection::UpstreamFailure(ref m)) if m == "refused"));
}

#[test]
fn proxy_origin_from_forwarding_headers() {
    assert_eq!(request_origin(None, None, None), "http://localhost");
    assert_eq!(request_origin(Some("https"), Some("cdn.example"), Some("inner:8080")), "https://cdn.example");
    assert_eq!(request_origin(None, None, Some("inner:8080")), "http://inner:8080");
}

#[test]
fn proxy_path_follows_caller() {
    assert_eq!(proxy_path("/api/proxy/stream"), "/api/proxy/stream");
    assert_eq!(proxy_path("/stream"), "/stream");
}

#[test]
fn routing_to_rewriter() {
    assert!(should_rewrite(200, "application/vnd.apple.mpegurl", "https://a.com/live"));
    assert!(should_rewrite(200, "", "https://a.com/index.m3u8"));
    assert!(should_rewrite(206, "application/vnd.apple.mpegurl", "https://a.com/index.m3u8"));
    assert!(!should_rewrite(304, "application/vnd.apple.mpegurl", "https://a.com/index.m3u8"));
    assert!(!should_rewrite(200, "video/mp4", "https://a.com/movie.mp4"));
}

#[test]
fn trailing_empty_line_is_kept() {
    let input = "#EXTM3U\n\n";
    let out = rewrite_m3u8(input, BASE, ORIGIN, "/stream").unwrap();
    assert_eq!(out, "#EXTM3U\n\n");
    assert_eq!(out.lines().count(), input.lines().count());
    let only_blank = rewrite_m3u8("\n", BASE, ORIGIN, "/stream").unwrap();
    assert_eq!(only_blank.lines().count(), 1);
}

#[test]
fn valid_url_of_6000_characters_is_proxied() {
    let url = format!("https://a.com/{}", "a".repeat(5986));
    assert_eq!(url.chars().count(), 6000);
    match validate(Method::Get, &url) {
        Ok(Validated::Proxy(target)) => {
            let sent = upstream_request_headers(&target, None);
            assert_eq!(value_of(&sent, "origin"), vec!["https://a.com"]);
        }
        _ => panic!("a valid URL of 6000 characters must be proxied"),
    }
}
