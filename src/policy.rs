//! Response policy: CORS headers, cache directives, and the decision
//! whether a response is an HLS playlist.
use vstd::prelude::*;
use crate::headers::{lemma_without_name, with_header, without_name, Headers};
use crate::text::{ascii_lower, chars_of, contains, contains_seq, to_ascii_lower};

verus! {

pub open spec fn allow_origin_name() -> Seq<char> {
    "access-control-allow-origin"@
}

pub open spec fn allow_origin_value() -> Seq<char> {
    "*"@
}

pub open spec fn allow_methods_name() -> Seq<char> {
    "access-control-allow-methods"@
}

pub open spec fn allow_methods_value() -> Seq<char> {
    "GET, HEAD, OPTIONS"@
}

pub open spec fn expose_headers_name() -> Seq<char> {
    "access-control-expose-headers"@
}

pub open spec fn expose_headers_value() -> Seq<char> {
    "Content-Length, Content-Range, Content-Type, Accept-Ranges"@
}

pub open spec fn cache_control_name() -> Seq<char> {
    "cache-control"@
}

pub open spec fn content_type_name() -> Seq<char> {
    "content-type"@
}

pub open spec fn content_length_name() -> Seq<char> {
    "content-length"@
}

pub open spec fn playlist_type() -> Seq<char> {
    "application/vnd.apple.mpegurl"@
}

pub open spec fn legacy_playlist_type() -> Seq<char> {
    "application/x-mpegurl"@
}

pub open spec fn segment_cache() -> Seq<char> {
    "public, max-age=86400, immutable"@
}

pub open spec fn media_cache() -> Seq<char> {
    "public, max-age=3600"@
}

pub open spec fn playlist_cache() -> Seq<char> {
    "public, max-age=10, stale-while-revalidate=30"@
}

/// `h` with the three CORS headers set.
pub open spec fn with_cors(h: Seq<(Seq<char>, Seq<char>)>) -> Seq<(Seq<char>, Seq<char>)> {
    with_header(
        with_header(
            with_header(h, allow_origin_name(), allow_origin_value()),
            allow_methods_name(),
            allow_methods_value(),
        ),
        expose_headers_name(),
        expose_headers_value(),
    )
}

/// `h` carries the three CORS headers with their values.
pub open spec fn has_cors(h: Seq<(Seq<char>, Seq<char>)>) -> bool {
    &&& h.contains((allow_origin_name(), allow_origin_value()))
    &&& h.contains((allow_methods_name(), allow_methods_value()))
    &&& h.contains((expose_headers_name(), expose_headers_value()))
}

/// The Cache-Control value for a passthrough response, chosen by the
/// lower-cased target URL: first match wins, `None` leaves it as it is.
pub open spec fn cache_policy(url_lower: Seq<char>) -> Option<Seq<char>> {
    if contains(url_lower, ".ts"@) || contains(url_lower, ".m4s"@) {
        Some(segment_cache())
    } else if contains(url_lower, ".mp4"@) || contains(url_lower, ".mkv"@) {
        Some(media_cache())
    } else {
        None
    }
}

/// `h` after the cache policy for `url_lower`.
pub open spec fn with_cache_policy(h: Seq<(Seq<char>, Seq<char>)>, url_lower: Seq<char>) -> Seq<
    (Seq<char>, Seq<char>),
> {
    match cache_policy(url_lower) {
        Some(v) => with_header(h, cache_control_name(), v),
        None => h,
    }
}

/// A response is a playlist when its Content-Type names one, or its URL
/// mentions `.m3u8`, either ignoring ASCII case.
pub open spec fn playlist_signal(content_type: Seq<char>, url: Seq<char>) -> bool {
    contains(ascii_lower(content_type), playlist_type()) || contains(
        ascii_lower(content_type),
        legacy_playlist_type(),
    ) || contains(ascii_lower(url), ".m3u8"@)
}

/// The headers of a rewritten playlist: the upstream headers without
/// Content-Length, with the playlist Content-Type, the short cache window
/// and the CORS headers.
pub open spec fn playlist_headers(upstream: Seq<(Seq<char>, Seq<char>)>) -> Seq<
    (Seq<char>, Seq<char>),
> {
    with_cors(
        with_header(
            with_header(
                without_name(upstream, content_length_name()),
                content_type_name(),
                playlist_type(),
            ),
            cache_control_name(),
            playlist_cache(),
        ),
    )
}

/// The headers of a passthrough response: the upstream headers with the
/// CORS headers, then the cache policy for the URL.
pub open spec fn passthrough_headers(upstream: Seq<(Seq<char>, Seq<char>)>, url_lower: Seq<char>) -> Seq<
    (Seq<char>, Seq<char>),
> {
    with_cache_policy(with_cors(upstream), url_lower)
}

/// Setting a header adds that entry and keeps every entry of another name.
pub proof fn lemma_with_header(h: Seq<(Seq<char>, Seq<char>)>, name: Seq<char>, value: Seq<char>)
    ensures
        with_header(h, name, value).contains((name, value)),
        forall|e: (Seq<char>, Seq<char>)|
            #![trigger with_header(h, name, value).contains(e)]
            h.contains(e) && e.0 != name ==> with_header(h, name, value).contains(e),
{
    lemma_without_name(h, name);
    let w = without_name(h, name);
    assert(w.push((name, value))[w.len() as int] == (name, value));
    assert forall|e: (Seq<char>, Seq<char>)|
        h.contains(e) && e.0 != name implies #[trigger] with_header(h, name, value).contains(e) by {
        assert(w.contains(e));
        let j = choose|j: int| 0 <= j < w.len() && w[j] == e;
        assert(w.push((name, value))[j] == e);
    }
}

proof fn lemma_names_differ()
    ensures
        allow_origin_name() != allow_methods_name(),
        allow_origin_name() != expose_headers_name(),
        allow_methods_name() != expose_headers_name(),
        allow_origin_name() != cache_control_name(),
        allow_methods_name() != cache_control_name(),
        expose_headers_name() != cache_control_name(),
{
    reveal_strlit("access-control-allow-origin");
    reveal_strlit("access-control-allow-methods");
    reveal_strlit("access-control-expose-headers");
    reveal_strlit("cache-control");
    assert(allow_origin_name()[21] != allow_methods_name()[21]);
    assert(allow_origin_name()[15] != expose_headers_name()[15]);
    assert(allow_methods_name()[15] != expose_headers_name()[15]);
    assert(allow_origin_name().len() != cache_control_name().len());
    assert(allow_methods_name().len() != cache_control_name().len());
    assert(expose_headers_name().len() != cache_control_name().len());
}

/// Whatever the headers were, after the CORS headers are set they carry
/// all three.
pub proof fn lemma_cors_present(h: Seq<(Seq<char>, Seq<char>)>)
    ensures
        has_cors(with_cors(h)),
{
    lemma_names_differ();
    let h1 = with_header(h, allow_origin_name(), allow_origin_value());
    let h2 = with_header(h1, allow_methods_name(), allow_methods_value());
    lemma_with_header(h, allow_origin_name(), allow_origin_value());
    lemma_with_header(h1, allow_methods_name(), allow_methods_value());
    lemma_with_header(h2, expose_headers_name(), expose_headers_value());
    assert(h1.contains((allow_origin_name(), allow_origin_value())));
    assert(h2.contains((allow_origin_name(), allow_origin_value())));
    assert(h2.contains((allow_methods_name(), allow_methods_value())));
}

/// Every response the proxy builds, a rewritten playlist or a passthrough
/// whatever its cache policy, carries the three CORS headers.
pub proof fn lemma_responses_carry_cors(
    upstream: Seq<(Seq<char>, Seq<char>)>,
    url_lower: Seq<char>,
)
    ensures
        has_cors(playlist_headers(upstream)),
        has_cors(passthrough_headers(upstream, url_lower)),
{
    lemma_cors_present(
        with_header(
            with_header(
                without_name(upstream, content_length_name()),
                content_type_name(),
                playlist_type(),
            ),
            cache_control_name(),
            playlist_cache(),
        ),
    );
    lemma_cors_present(upstream);
    lemma_names_differ();
    if let Some(v) = cache_policy(url_lower) {
        lemma_with_header(with_cors(upstream), cache_control_name(), v);
    }
}

/// Sets the three CORS headers.
pub fn add_stream_cors_headers(headers: &mut Headers)
    ensures
        final(headers)@ == with_cors(old(headers)@),
{
    headers.insert("access-control-allow-origin", "*");
    headers.insert("access-control-allow-methods", "GET, HEAD, OPTIONS");
    headers.insert(
        "access-control-expose-headers",
        "Content-Length, Content-Range, Content-Type, Accept-Ranges",
    );
}

/// The Cache-Control value for a passthrough response to `url_lower`.
pub fn cache_control_for(url_lower: &[char]) -> (r: Option<&'static str>)
    ensures
        r is Some <==> cache_policy(url_lower@) is Some,
        r matches Some(v) ==> cache_policy(url_lower@) == Some(v@),
{
    let ts = chars_of(".ts");
    let m4s = chars_of(".m4s");
    let mp4 = chars_of(".mp4");
    let mkv = chars_of(".mkv");
    if contains_seq(url_lower, ts.as_slice()) || contains_seq(url_lower, m4s.as_slice()) {
        Some("public, max-age=86400, immutable")
    } else if contains_seq(url_lower, mp4.as_slice()) || contains_seq(url_lower, mkv.as_slice()) {
        Some("public, max-age=3600")
    } else {
        None
    }
}

/// Applies the cache policy for `url_lower` to a passthrough response.
pub fn apply_cache_policy(headers: &mut Headers, url_lower: &[char])
    ensures
        final(headers)@ == with_cache_policy(old(headers)@, url_lower@),
{
    match cache_control_for(url_lower) {
        Some(v) => headers.insert("cache-control", v),
        None => {},
    }
}

/// Whether the response is an HLS playlist.
pub fn is_playlist(content_type: &str, url: &str) -> (r: bool)
    ensures
        r == playlist_signal(content_type@, url@),
{
    let ct = to_ascii_lower(chars_of(content_type).as_slice());
    let u = to_ascii_lower(chars_of(url).as_slice());
    let apple = chars_of("application/vnd.apple.mpegurl");
    let legacy = chars_of("application/x-mpegurl");
    let ext = chars_of(".m3u8");
    contains_seq(ct.as_slice(), apple.as_slice()) || contains_seq(ct.as_slice(), legacy.as_slice())
        || contains_seq(u.as_slice(), ext.as_slice())
}

/// The headers of a rewritten playlist, built from the upstream headers.
pub fn playlist_response_headers(upstream: Headers) -> (r: Headers)
    ensures
        r@ == playlist_headers(upstream@),
{
    let mut h = upstream;
    h.remove("content-length");
    h.insert("content-type", "application/vnd.apple.mpegurl");
    h.insert("cache-control", "public, max-age=10, stale-while-revalidate=30");
    add_stream_cors_headers(&mut h);
    h
}

/// The headers of a passthrough response, built from the upstream headers.
pub fn passthrough_response_headers(upstream: Headers, url: &str) -> (r: Headers)
    ensures
        r@ == passthrough_headers(upstream@, ascii_lower(url@)),
{
    let mut h = upstream;
    add_stream_cors_headers(&mut h);
    let lower = to_ascii_lower(chars_of(url).as_slice());
    apply_cache_policy(&mut h, lower.as_slice());
    h
}

/// The headers of a response that the proxy makes up itself (a preflight
/// answer or a rejection): the CORS headers alone.
pub fn cors_only_headers() -> (r: Headers)
    ensures
        r@ == with_cors(Seq::empty()),
{
    let mut h = Headers::new();
    add_stream_cors_headers(&mut h);
    h
}

/// A delivered response goes to the playlist rewriter when it is a success
/// (2xx) and a playlist by either signal.
pub open spec fn routes_to_rewriter(status: u16, content_type: Seq<char>, url: Seq<char>) -> bool {
    200 <= status <= 299 && playlist_signal(content_type, url)
}

/// Whether a delivered response is rewritten as a playlist.
pub fn should_rewrite(status: u16, content_type: &str, url: &str) -> (r: bool)
    ensures
        r == routes_to_rewriter(status, content_type@, url@),
{
    200 <= status && status <= 299 && is_playlist(content_type, url)
}

/// Either signal alone routes a successful response to the rewriter: a
/// playlist Content-Type whatever the URL, or a URL that mentions `.m3u8`
/// whatever the Content-Type, absent included.
pub proof fn lemma_either_signal_routes(status: u16, content_type: Seq<char>, url: Seq<char>)
    requires
        200 <= status <= 299,
    ensures
        contains(ascii_lower(content_type), playlist_type()) ==> routes_to_rewriter(
            status,
            content_type,
            url,
        ),
        contains(ascii_lower(url), ".m3u8"@) ==> routes_to_rewriter(status, content_type, url),
{
}

} // verus!
