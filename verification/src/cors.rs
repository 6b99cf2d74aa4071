//! Cross-origin and security headers of the answers of the gateway.

use vstd::prelude::*;
use crate::text::{chars_of, contains_run, contains_str, eq_str};
use crate::types::{Header, push_header};

verus! {

pub open spec fn allow_methods() -> Seq<char> {
    "GET, POST, PUT, DELETE, OPTIONS, PATCH"@
}

pub open spec fn allow_headers() -> Seq<char> {
    "Content-Type, Authorization, X-Requested-With, Accept, Origin, X-CSRF-Token, X-Grpc-Web, X-User-Agent, grpc-timeout, X-Grpc-Web-Protocol"@
}

pub open spec fn expose_headers() -> Seq<char> {
    "grpc-status, grpc-message, grpc-encoding, grpc-accept-encoding, Grpc-Status, Grpc-Message"@
}

pub open spec fn content_security_policy() -> Seq<char> {
    "default-src 'self'; connect-src 'self' https://auth.ad-quest.ru http://auth.ad-quest.ru https://api.ad-quest.ru wss://auth.ad-quest.ru wss://api.ad-quest.ru https: wss:; script-src 'self' 'unsafe-eval' 'unsafe-inline'; style-src 'self' 'unsafe-inline'; img-src 'self' https://auth.ad-quest.ru data: blob: https:; font-src 'self' data:; frame-src 'none'; object-src 'none'; media-src 'none'; manifest-src 'self'"@
}

/// The origins that may send credentials.
pub open spec fn origin_allowed(origin: Seq<char>) -> bool {
    ||| origin == "https://auth.ad-quest.ru"@
    ||| origin == "https://api.ad-quest.ru"@
    ||| origin == "http://localhost:3000"@
    ||| origin == "http://localhost:5173"@
    ||| origin == "http://localhost:8085"@
    ||| origin == "http://localhost:8091"@
}

/// The headers that say who may read an answer. An allowed origin is
/// named and may send credentials; a request without origin is treated
/// as one of the identity service; any other origin gets the wildcard,
/// without credentials.
pub open spec fn origin_headers(origin: Seq<char>) -> Seq<(Seq<char>, Seq<char>)> {
    if origin_allowed(origin) {
        seq![
            ("Access-Control-Allow-Origin"@, origin),
            ("Access-Control-Allow-Credentials"@, "true"@),
        ]
    } else if origin.len() == 0 {
        seq![
            ("Access-Control-Allow-Origin"@, "https://auth.ad-quest.ru"@),
            ("Access-Control-Allow-Credentials"@, "true"@),
        ]
    } else {
        seq![("Access-Control-Allow-Origin"@, "*"@)]
    }
}

/// The headers that every cross-origin answer carries after those of the origin.
pub open spec fn common_cors_headers() -> Seq<(Seq<char>, Seq<char>)> {
    seq![
        ("Access-Control-Allow-Methods"@, allow_methods()),
        ("Access-Control-Allow-Headers"@, allow_headers()),
        ("Access-Control-Expose-Headers"@, expose_headers()),
    ]
}

/// The cross-origin headers for a request of that origin: none where the
/// answer already names an allowed origin.
pub open spec fn cors_headers_of(origin: Option<Seq<char>>, answered: bool) -> Seq<
    (Seq<char>, Seq<char>),
> {
    if answered {
        Seq::empty()
    } else {
        origin_headers(
            match origin {
                Some(o) => o,
                None => Seq::empty(),
            },
        ) + common_cors_headers() + seq![("Vary"@, "Origin"@)]
    }
}

pub open spec fn simple_cors_headers() -> Seq<(Seq<char>, Seq<char>)> {
    seq![("Access-Control-Allow-Origin"@, "*"@)] + common_cors_headers()
}

pub open spec fn security_headers() -> Seq<(Seq<char>, Seq<char>)> {
    seq![
        ("X-Frame-Options"@, "SAMEORIGIN"@),
        ("X-Content-Type-Options"@, "nosniff"@),
        ("X-XSS-Protection"@, "1; mode=block"@),
        ("Referrer-Policy"@, "strict-origin-when-cross-origin"@),
        ("Content-Security-Policy"@, content_security_policy()),
        ("Server"@, "Pingora/0.6.0"@),
    ]
}

/// The request asks for headers of gRPC.
pub open spec fn asks_for_grpc(requested_headers: Option<Seq<char>>) -> bool {
    requested_headers matches Some(h) && (contains_run(h, "grpc"@) || contains_run(h, "x-grpc"@))
}

/// The headers of the answer to a preflight request.
pub open spec fn preflight_headers(
    origin: Option<Seq<char>>,
    requested_headers: Option<Seq<char>>,
) -> Seq<(Seq<char>, Seq<char>)> {
    cors_headers_of(origin, false) + (if asks_for_grpc(requested_headers) {
        seq![("Access-Control-Allow-Headers"@, allow_headers())]
    } else {
        Seq::empty()
    }) + seq![
        ("Access-Control-Max-Age"@, "86400"@),
        ("Content-Length"@, "0"@),
        ("Server"@, "Pingora/0.6.0"@),
    ]
}

fn origin_is_allowed(origin: &Vec<char>) -> (b: bool)
    ensures
        b == origin_allowed(origin@),
{
    eq_str(origin, "https://auth.ad-quest.ru") || eq_str(origin, "https://api.ad-quest.ru")
        || eq_str(origin, "http://localhost:3000") || eq_str(origin, "http://localhost:5173")
        || eq_str(origin, "http://localhost:8085") || eq_str(origin, "http://localhost:8091")
}

const ALLOW_METHODS: &'static str = "GET, POST, PUT, DELETE, OPTIONS, PATCH";

const ALLOW_HEADERS: &'static str =
    "Content-Type, Authorization, X-Requested-With, Accept, Origin, X-CSRF-Token, X-Grpc-Web, X-User-Agent, grpc-timeout, X-Grpc-Web-Protocol";

const EXPOSE_HEADERS: &'static str =
    "grpc-status, grpc-message, grpc-encoding, grpc-accept-encoding, Grpc-Status, Grpc-Message";

const CONTENT_SECURITY_POLICY: &'static str =
    "default-src 'self'; connect-src 'self' https://auth.ad-quest.ru http://auth.ad-quest.ru https://api.ad-quest.ru wss://auth.ad-quest.ru wss://api.ad-quest.ru https: wss:; script-src 'self' 'unsafe-eval' 'unsafe-inline'; style-src 'self' 'unsafe-inline'; img-src 'self' https://auth.ad-quest.ru data: blob: https:; font-src 'self' data:; frame-src 'none'; object-src 'none'; media-src 'none'; manifest-src 'self'";

fn push_common(headers: &mut Vec<Header>)
    ensures
        final(headers).deep_view() == old(headers).deep_view() + common_cors_headers(),
{
    push_header(headers, "Access-Control-Allow-Methods", ALLOW_METHODS);
    push_header(headers, "Access-Control-Allow-Headers", ALLOW_HEADERS);
    push_header(headers, "Access-Control-Expose-Headers", EXPOSE_HEADERS);
    assert(headers.deep_view() =~= old(headers).deep_view() + common_cors_headers());
}

/// The cross-origin headers that the answer to a request gets. `answered`
/// says that the answer already names an allowed origin, as those of the
/// identity service do: it then gets none.
pub fn add_cors_headers_for_request(origin: Option<&str>, answered: bool) -> (headers: Vec<Header>)
    ensures
        headers.deep_view() == cors_headers_of(origin.deep_view(), answered),
{
    let mut headers: Vec<Header> = Vec::new();
    assert(headers.deep_view() =~= Seq::<(Seq<char>, Seq<char>)>::empty());
    if answered {
        return headers;
    }
    let o = match origin {
        Some(o) => o,
        None => "",
    };
    proof {
        reveal_strlit("");
    }
    let text = chars_of(o);
    if origin_is_allowed(&text) {
        push_header(&mut headers, "Access-Control-Allow-Origin", o);
        push_header(&mut headers, "Access-Control-Allow-Credentials", "true");
    } else if text.len() == 0 {
        push_header(&mut headers, "Access-Control-Allow-Origin", "https://auth.ad-quest.ru");
        push_header(&mut headers, "Access-Control-Allow-Credentials", "true");
    } else {
        push_header(&mut headers, "Access-Control-Allow-Origin", "*");
    }
    assert(headers.deep_view() =~= origin_headers(o@));
    push_common(&mut headers);
    push_header(&mut headers, "Vary", "Origin");
    assert("".view() =~= Seq::<char>::empty());
    headers
}

/// The cross-origin headers for answers that any origin may read.
pub fn add_cors_headers() -> (headers: Vec<Header>)
    ensures
        headers.deep_view() == simple_cors_headers(),
{
    let mut headers: Vec<Header> = Vec::new();
    push_header(&mut headers, "Access-Control-Allow-Origin", "*");
    assert(headers.deep_view() =~= seq![("Access-Control-Allow-Origin"@, "*"@)]);
    push_common(&mut headers);
    headers
}

/// The security headers that every answer gets.
pub fn add_security_headers() -> (headers: Vec<Header>)
    ensures
        headers.deep_view() == security_headers(),
{
    let mut headers: Vec<Header> = Vec::new();
    push_header(&mut headers, "X-Frame-Options", "SAMEORIGIN");
    push_header(&mut headers, "X-Content-Type-Options", "nosniff");
    push_header(&mut headers, "X-XSS-Protection", "1; mode=block");
    push_header(&mut headers, "Referrer-Policy", "strict-origin-when-cross-origin");
    push_header(&mut headers, "Content-Security-Policy", CONTENT_SECURITY_POLICY);
    push_header(&mut headers, "Server", "Pingora/0.6.0");
    assert(headers.deep_view() =~= security_headers());
    headers
}

/// The headers of the answer to a preflight request, or none where the
/// request is no preflight: its method is not `OPTIONS`.
pub fn handle_cors_preflight(
    method: &str,
    origin: Option<&str>,
    requested_headers: Option<&str>,
) -> (answer: Option<Vec<Header>>)
    ensures
        answer is Some <==> method@ == "OPTIONS"@,
        answer matches Some(headers) ==> headers.deep_view() == preflight_headers(
            origin.deep_view(),
            requested_headers.deep_view(),
        ),
{
    let m = chars_of(method);
    if !eq_str(&m, "OPTIONS") {
        return None;
    }
    let mut headers = add_cors_headers_for_request(origin, false);
    let grpc = match requested_headers {
        Some(h) => {
            let t = chars_of(h);
            contains_str(&t, "grpc") || contains_str(&t, "x-grpc")
        },
        None => false,
    };
    if grpc {
        push_header(&mut headers, "Access-Control-Allow-Headers", ALLOW_HEADERS);
    }
    push_header(&mut headers, "Access-Control-Max-Age", "86400");
    push_header(&mut headers, "Content-Length", "0");
    push_header(&mut headers, "Server", "Pingora/0.6.0");
    assert(headers.deep_view() =~= preflight_headers(
        origin.deep_view(),
        requested_headers.deep_view(),
    ));
    Some(headers)
}

} // verus!
