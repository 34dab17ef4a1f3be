//! Request handling: validation of the caller's method and target URL, the
//! headers sent upstream, the two-attempt fetch protocol, and what each
//! failure means to the caller.
use vstd::prelude::*;
use crate::headers::{lacks, lemma_without_name, without_name, Headers};
use crate::playlist::RewriteError;
use crate::text::chars_of;
use crate::urls::{url_host, url_origin, url_parse, url_scheme, ParsedUrl};

verus! {

/// The longest target URL accepted, in characters.
pub const MAX_URL_LEN: usize = 6000;

/// The request method, as far as the proxy tells methods apart.
#[derive(Clone, Copy, Debug, PartialEq, Eq, Structural)]
pub enum Method {
    Get,
    Head,
    Options,
    Other,
}

/// Why a request fails, and with what status.
#[derive(Debug)]
pub enum Rejection {
    MethodNotAllowed,
    UrlRequired,
    UrlTooLong,
    /// The target does not parse, or is not `http`/`https` with a host.
    InvalidUrl,
    UpstreamTimeout,
    /// The connection to the origin failed; the text says how.
    UpstreamFailure(String),
    /// The final upstream status is neither 2xx nor 206.
    UpstreamStatus(u16),
    RewriteFailed(RewriteError),
}

/// The status code of each rejection.
pub open spec fn rejection_status(r: Rejection) -> u16 {
    match r {
        Rejection::MethodNotAllowed => 405,
        Rejection::UrlRequired | Rejection::UrlTooLong | Rejection::InvalidUrl => 400,
        Rejection::UpstreamTimeout => 504,
        _ => 502,
    }
}

impl Rejection {
    /// The HTTP status code of this rejection.
    pub fn status(&self) -> (r: u16)
        ensures
            r == rejection_status(*self),
    {
        match self {
            Rejection::MethodNotAllowed => 405,
            Rejection::UrlRequired | Rejection::UrlTooLong | Rejection::InvalidUrl => 400,
            Rejection::UpstreamTimeout => 504,
            _ => 502,
        }
    }
}

/// What a valid request asks for.
pub enum Validated {
    /// A CORS preflight: answered at once, nothing is fetched.
    Preflight,
    /// A GET or HEAD of this target.
    Proxy(ParsedUrl),
}

/// The URL parsed from `s` is `http` or `https` with a non-empty host.
pub open spec fn acceptable_target(s: Seq<char>) -> bool {
    &&& url_parse(s) is Some
    &&& (url_scheme(s) == "http"@ || url_scheme(s) == "https"@)
    &&& url_host(s) matches Some(h) && h.len() > 0
}

/// The outcome of validation, in order of the checks.
pub open spec fn validation(method: Method, url: Seq<char>) -> Option<Rejection> {
    if method == Method::Options {
        None
    } else if method == Method::Other {
        Some(Rejection::MethodNotAllowed)
    } else if url.len() == 0 {
        Some(Rejection::UrlRequired)
    } else if url.len() > MAX_URL_LEN {
        Some(Rejection::UrlTooLong)
    } else if !acceptable_target(url) {
        Some(Rejection::InvalidUrl)
    } else {
        None
    }
}

/// Checks the method and the target URL of a request. A preflight always
/// passes; a GET or HEAD passes with its parsed target, which is not
/// fetched when any check fails.
pub fn validate(method: Method, url: &str) -> (r: Result<Validated, Rejection>)
    ensures
        r is Err <==> validation(method, url@) is Some,
        r matches Err(e) ==> validation(method, url@) == Some(e),
        method == Method::Options ==> r matches Ok(Validated::Preflight),
        method != Method::Options && validation(method, url@) is None ==> (r matches Ok(
            Validated::Proxy(u),
        ) && u.source() == url@),
        r matches Ok(Validated::Preflight) ==> method == Method::Options,
        r matches Ok(Validated::Proxy(u)) ==> u.source() == url@ && acceptable_target(url@)
            && method != Method::Options,
        (method == Method::Get || method == Method::Head) && 0 < url@.len() <= MAX_URL_LEN
            && !acceptable_target(url@) ==> (r matches Err(e) && rejection_status(e) == 400),
{
    match method {
        Method::Options => return Ok(Validated::Preflight),
        Method::Other => return Err(Rejection::MethodNotAllowed),
        _ => {},
    }
    let n = chars_of(url).len();
    if n == 0 {
        return Err(Rejection::UrlRequired);
    }
    if n > MAX_URL_LEN {
        return Err(Rejection::UrlTooLong);
    }
    let target = match ParsedUrl::parse(url) {
        Ok(t) => t,
        Err(_) => return Err(Rejection::InvalidUrl),
    };
    let scheme = chars_of(target.scheme());
    let http = chars_of("http");
    let https = chars_of("https");
    if !(same_chars(scheme.as_slice(), http.as_slice()) || same_chars(scheme.as_slice(), https.as_slice())) {
        return Err(Rejection::InvalidUrl);
    }
    match target.host() {
        Some(h) if !h.is_empty() => {},
        _ => return Err(Rejection::InvalidUrl),
    }
    Ok(Validated::Proxy(target))
}

/// Whether `a` and `b` hold the same characters.
pub fn same_chars(a: &[char], b: &[char]) -> (r: bool)
    ensures
        r == (a@ == b@),
{
    if a.len() != b.len() {
        return false;
    }
    let mut i: usize = 0;
    while i < a.len()
        invariant
            a@.len() == b@.len(),
            i <= a@.len(),
            forall|j: int| 0 <= j < i ==> a@[j] == b@[j],
        decreases a@.len() - i,
    {
        if a[i] != b[i] {
            return false;
        }
        i += 1;
    }
    assert(a@ =~= b@);
    true
}

pub open spec fn user_agent() -> Seq<char> {
    "Mozilla/5.0 (Windows NT 10.0; Win64; x64) AppleWebKit/537.36 (KHTML, like Gecko) Chrome/120.0.0.0 Safari/537.36"@
}

/// The headers of the first upstream attempt: a browser User-Agent, the
/// target's own origin as Origin and Referer, and the caller's Range.
pub open spec fn upstream_headers(target: Seq<char>, range: Option<Seq<char>>) -> Seq<
    (Seq<char>, Seq<char>),
> {
    let h = seq![
        ("user-agent"@, user_agent()),
        ("origin"@, url_origin(target)),
        ("referer"@, url_origin(target) + "/"@),
    ];
    match range {
        Some(r) => h.push(("range"@, r)),
        None => h,
    }
}

/// `h` without Origin and Referer.
pub open spec fn without_credentials(h: Seq<(Seq<char>, Seq<char>)>) -> Seq<
    (Seq<char>, Seq<char>),
> {
    without_name(without_name(h, "referer"@), "origin"@)
}

/// The headers for the first upstream attempt at `target`.
pub fn upstream_request_headers(target: &ParsedUrl, range: Option<&str>) -> (r: Headers)
    ensures
        r@ == upstream_headers(target.source(), match range {
            Some(s) => Some(s@),
            None => None,
        }),
{
    let mut h = Headers::new();
    h.append(
        "user-agent".to_owned(),
        "Mozilla/5.0 (Windows NT 10.0; Win64; x64) AppleWebKit/537.36 (KHTML, like Gecko) Chrome/120.0.0.0 Safari/537.36".to_owned(),
    );
    let origin = target.origin();
    let mut referer = origin.clone();
    referer.append("/");
    h.append("origin".to_owned(), origin);
    h.append("referer".to_owned(), referer);
    match range {
        Some(r) => h.append("range".to_owned(), r.to_owned()),
        None => {},
    }
    proof {
        let rg = match range {
            Some(s) => Some(s@),
            None => None,
        };
        assert(h@ =~= upstream_headers(target.source(), rg));
    }
    h
}

/// Where the two-attempt fetch stands.
#[derive(Clone, Copy, Debug, PartialEq, Eq, Structural)]
pub enum Phase {
    FirstAttempt,
    RetryWithoutCredentials,
    Done,
}

/// What came back from one upstream attempt.
pub enum FetchEvent {
    /// The origin answered with this status.
    Responded(u16),
    /// The connection failed; the text says how.
    TransportFailed(String),
    /// The attempt ran out of time.
    TimedOut,
}

/// What to do next.
pub enum FetchStep {
    /// Send the request with these headers, waiting at most this long.
    Send { headers: Headers, timeout_secs: u64 },
    /// The response with this status goes on to the caller.
    Deliver(u16),
    /// The request fails.
    Fail(Rejection),
}

/// A first attempt that was refused with 403 is tried once more.
pub open spec fn retries(phase: Phase, event: FetchEvent) -> bool {
    phase == Phase::FirstAttempt && (event matches FetchEvent::Responded(s) && s == 403)
}

pub open spec fn next_phase(phase: Phase, event: FetchEvent) -> Phase {
    if retries(phase, event) {
        Phase::RetryWithoutCredentials
    } else {
        Phase::Done
    }
}

/// A final status that goes on to the caller: 2xx, 206 among them.
pub open spec fn deliverable(status: u16) -> bool {
    200 <= status <= 299 || status == 206
}

/// The first step: send the first attempt, with 15 seconds to answer.
pub fn start_fetch(headers: Headers) -> (r: (Phase, FetchStep))
    ensures
        r.0 == Phase::FirstAttempt,
        (r.1 matches FetchStep::Send { headers: h, timeout_secs: t } && h@ == headers@ && t == 15),
{
    (Phase::FirstAttempt, FetchStep::Send { headers, timeout_secs: 15 })
}

/// The step after an attempt that sent `sent`. A 403 to the first attempt
/// brings one retry without Origin and Referer, every other header kept,
/// with 10 seconds to answer; anything else is final.
pub fn on_fetch_event(phase: Phase, event: FetchEvent, sent: Headers) -> (r: (Phase, FetchStep))
    requires
        phase != Phase::Done,
    ensures
        r.0 == next_phase(phase, event),
        retries(phase, event) ==> (r.1 matches FetchStep::Send { headers: h, timeout_secs: t }
            && h@ == without_credentials(sent@) && t == 10),
        !retries(phase, event) ==> match event {
            FetchEvent::Responded(s) => if deliverable(s) {
                r.1 == FetchStep::Deliver(s)
            } else {
                (r.1 matches FetchStep::Fail(Rejection::UpstreamStatus(x)) && x == s)
            },
            FetchEvent::TransportFailed(m) => (r.1 matches FetchStep::Fail(
                Rejection::UpstreamFailure(x),
            ) && x == m),
            FetchEvent::TimedOut => r.1 matches FetchStep::Fail(Rejection::UpstreamTimeout),
        },
{
    match event {
        FetchEvent::Responded(s) => {
            if phase == Phase::FirstAttempt && s == 403 {
                let mut h = sent;
                h.remove("referer");
                h.remove("origin");
                (Phase::RetryWithoutCredentials, FetchStep::Send { headers: h, timeout_secs: 10 })
            } else if (200 <= s && s <= 299) || s == 206 {
                (Phase::Done, FetchStep::Deliver(s))
            } else {
                (Phase::Done, FetchStep::Fail(Rejection::UpstreamStatus(s)))
            }
        },
        FetchEvent::TransportFailed(m) => (Phase::Done, FetchStep::Fail(Rejection::UpstreamFailure(m))),
        FetchEvent::TimedOut => (Phase::Done, FetchStep::Fail(Rejection::UpstreamTimeout)),
    }
}

/// At most one retry: a 403 to the first attempt leads to the retry, whose
/// outcome, whatever it is, is final. The retry sends no Origin or Referer
/// and every other header of the first attempt, Range included, in order.
pub proof fn lemma_single_retry(sent: Seq<(Seq<char>, Seq<char>)>, second: FetchEvent)
    ensures
        retries(Phase::FirstAttempt, FetchEvent::Responded(403)),
        next_phase(Phase::FirstAttempt, FetchEvent::Responded(403)) == Phase::RetryWithoutCredentials,
        !retries(Phase::RetryWithoutCredentials, second),
        next_phase(Phase::RetryWithoutCredentials, second) == Phase::Done,
        lacks(without_credentials(sent), "origin"@),
        lacks(without_credentials(sent), "referer"@),
        forall|e: (Seq<char>, Seq<char>)|
            #![trigger without_credentials(sent).contains(e)]
            sent.contains(e) && e.0 != "origin"@ && e.0 != "referer"@ ==> without_credentials(
                sent,
            ).contains(e),
{
    let w = without_name(sent, "referer"@);
    lemma_without_name(sent, "referer"@);
    lemma_without_name(w, "origin"@);
    assert forall|i: int| 0 <= i < without_credentials(sent).len() implies
        (#[trigger] without_credentials(sent)[i]).0 != "referer"@ by {
        let e = without_credentials(sent)[i];
        assert(without_credentials(sent).contains(e));
        assert(w.contains(e));
        let j = choose|j: int| 0 <= j < w.len() && w[j] == e;
        assert(w[j].0 != "referer"@);
    }
}

/// The scheme and host this proxy is reached at, from the forwarding
/// headers: `http` and `localhost` where they are missing, and `Host`
/// where no forwarded host is given.
pub open spec fn origin_of(
    proto: Option<Seq<char>>,
    forwarded_host: Option<Seq<char>>,
    host: Option<Seq<char>>,
) -> Seq<char> {
    let p = match proto {
        Some(p) => p,
        None => "http"@,
    };
    let h = match forwarded_host {
        Some(h) => h,
        None => match host {
            Some(h) => h,
            None => "localhost"@,
        },
    };
    p + "://"@ + h
}

pub open spec fn opt_view(o: Option<&str>) -> Option<Seq<char>> {
    match o {
        Some(s) => Some(s@),
        None => None,
    }
}

/// The proxy's own origin, `scheme://host`.
pub fn request_origin(
    forwarded_proto: Option<&str>,
    forwarded_host: Option<&str>,
    host: Option<&str>,
) -> (r: String)
    ensures
        r@ == origin_of(opt_view(forwarded_proto), opt_view(forwarded_host), opt_view(host)),
{
    let p = match forwarded_proto {
        Some(p) => p,
        None => "http",
    };
    let h = match forwarded_host {
        Some(h) => h,
        None => match host {
            Some(h) => h,
            None => "localhost",
        },
    };
    let mut r = p.to_owned();
    r.append("://");
    r.append(h);
    r
}

/// The path a rewritten playlist points back to: the one the caller used.
pub fn proxy_path(self_path: &str) -> (r: &'static str)
    ensures
        r@ == (if self_path@ == "/api/proxy/stream"@ {
            "/api/proxy/stream"@
        } else {
            "/stream"@
        }),
{
    let api = chars_of("/api/proxy/stream");
    if same_chars(chars_of(self_path).as_slice(), api.as_slice()) {
        "/api/proxy/stream"
    } else {
        "/stream"
    }
}

} // verus!
