//! The services behind the gateway and the per-request routing context.

use vstd::prelude::*;
use crate::text::to_string;

verus! {

/// The logical services that a request can be routed to.
#[derive(Debug, Clone, Copy, PartialEq, Eq, Structural)]
pub enum ServiceType {
    CoreApi,
    ChallengeApi,
    BillingApi,
    ErirApi,
    SharedApi,
    ZitadelAuth,
    Static,
}

/// What the gateway has decided about one request so far.
#[derive(Debug)]
pub struct RequestContext {
    pub service_type: ServiceType,
    pub upstream_host: String,
    pub upstream_port: u16,
    /// Connection attempts that were retried.
    pub retries: u32,
}

impl RequestContext {
    /// The context of a request that nothing has been decided about: the
    /// static page, no upstream, no retry.
    pub fn new() -> (ctx: RequestContext)
        ensures
            ctx.service_type == ServiceType::Static,
            ctx.upstream_host@ == Seq::<char>::empty(),
            ctx.upstream_port == 0,
            ctx.retries == 0,
    {
        RequestContext {
            service_type: ServiceType::Static,
            upstream_host: String::new(),
            upstream_port: 0,
            retries: 0,
        }
    }
}

impl Default for RequestContext {
    fn default() -> (ctx: RequestContext)
        ensures
            ctx.service_type == ServiceType::Static,
            ctx.upstream_host@ == Seq::<char>::empty(),
            ctx.upstream_port == 0,
            ctx.retries == 0,
    {
        RequestContext::new()
    }
}

impl ServiceType {
    /// Name of the service in metric labels.
    pub open spec fn metric_label_of(self) -> Seq<char> {
        match self {
            ServiceType::CoreApi => "core_api"@,
            ServiceType::ChallengeApi => "challenge_api"@,
            ServiceType::BillingApi => "billing_api"@,
            ServiceType::ErirApi => "erir_api"@,
            ServiceType::SharedApi => "shared_api"@,
            ServiceType::ZitadelAuth => "zitadel_auth"@,
            ServiceType::Static => "static"@,
        }
    }

    /// Name of the service in log lines.
    pub open spec fn log_label_of(self) -> Seq<char> {
        match self {
            ServiceType::CoreApi => "CORE_API"@,
            ServiceType::ChallengeApi => "CHALLENGE_API"@,
            ServiceType::BillingApi => "BILLING_API"@,
            ServiceType::ErirApi => "ERIR_API"@,
            ServiceType::SharedApi => "SHARED_API"@,
            ServiceType::ZitadelAuth => "ZITADEL_AUTH"@,
            ServiceType::Static => "STATIC"@,
        }
    }

    pub fn metric_label(&self) -> (s: &'static str)
        ensures
            s@ == self.metric_label_of(),
    {
        match self {
            ServiceType::CoreApi => "core_api",
            ServiceType::ChallengeApi => "challenge_api",
            ServiceType::BillingApi => "billing_api",
            ServiceType::ErirApi => "erir_api",
            ServiceType::SharedApi => "shared_api",
            ServiceType::ZitadelAuth => "zitadel_auth",
            ServiceType::Static => "static",
        }
    }

    pub fn log_label(&self) -> (s: &'static str)
        ensures
            s@ == self.log_label_of(),
    {
        match self {
            ServiceType::CoreApi => "CORE_API",
            ServiceType::ChallengeApi => "CHALLENGE_API",
            ServiceType::BillingApi => "BILLING_API",
            ServiceType::ErirApi => "ERIR_API",
            ServiceType::SharedApi => "SHARED_API",
            ServiceType::ZitadelAuth => "ZITADEL_AUTH",
            ServiceType::Static => "STATIC",
        }
    }
}


/// A header of a request or a response.
#[derive(Debug, Clone, PartialEq, Eq)]
pub struct Header {
    pub name: String,
    pub value: String,
}

impl View for Header {
    type V = (Seq<char>, Seq<char>);

    open spec fn view(&self) -> (Seq<char>, Seq<char>) {
        (self.name@, self.value@)
    }
}

impl DeepView for Header {
    type V = (Seq<char>, Seq<char>);

    open spec fn deep_view(&self) -> (Seq<char>, Seq<char>) {
        self@
    }
}

impl Header {
    pub fn new(name: &str, value: &str) -> (h: Header)
        ensures
            h@ == (name@, value@),
    {
        Header { name: to_string(name), value: to_string(value) }
    }
}

/// Appends a header to a list of headers.
pub fn push_header(headers: &mut Vec<Header>, name: &str, value: &str)
    ensures
        final(headers).deep_view() == old(headers).deep_view().push((name@, value@)),
{
    let ghost before = headers.deep_view();
    let h = Header::new(name, value);
    headers.push(h);
    assert(headers.deep_view() =~= before.push((name@, value@)));
}

/// What the gateway reads of a request.
#[derive(Debug, Clone)]
pub struct RequestInfo {
    pub method: String,
    /// The authority of the request target, where it has one.
    pub authority: Option<String>,
    /// The `Host` header.
    pub host_header: Option<String>,
    pub path: String,
    /// Whether the request target names the scheme `https`.
    pub scheme_is_https: bool,
    /// The socket address of the client, as `address:port`.
    pub client_addr: Option<String>,
    /// The `X-API-Key` header.
    pub api_key: Option<String>,
    /// The `Origin` header.
    pub origin: Option<String>,
    /// The `X-Forwarded-Proto` header.
    pub forwarded_proto: Option<String>,
    /// The `Upgrade` header.
    pub upgrade: Option<String>,
    /// The `Access-Control-Request-Headers` header.
    pub requested_headers: Option<String>,
}

pub struct RequestModel {
    pub method: Seq<char>,
    pub authority: Option<Seq<char>>,
    pub host_header: Option<Seq<char>>,
    pub path: Seq<char>,
    pub scheme_is_https: bool,
    pub client_addr: Option<Seq<char>>,
    pub api_key: Option<Seq<char>>,
    pub origin: Option<Seq<char>>,
    pub forwarded_proto: Option<Seq<char>>,
    pub upgrade: Option<Seq<char>>,
    pub requested_headers: Option<Seq<char>>,
}

impl View for RequestInfo {
    type V = RequestModel;

    open spec fn view(&self) -> RequestModel {
        RequestModel {
            method: self.method@,
            authority: self.authority.deep_view(),
            host_header: self.host_header.deep_view(),
            path: self.path@,
            scheme_is_https: self.scheme_is_https,
            client_addr: self.client_addr.deep_view(),
            api_key: self.api_key.deep_view(),
            origin: self.origin.deep_view(),
            forwarded_proto: self.forwarded_proto.deep_view(),
            upgrade: self.upgrade.deep_view(),
            requested_headers: self.requested_headers.deep_view(),
        }
    }
}

/// The host that a request is for: the authority of its target, else its
/// `Host` header, else `unknown`.
pub open spec fn host_of(req: RequestModel) -> Seq<char> {
    match req.authority {
        Some(a) => a,
        None => match req.host_header {
            Some(h) => h,
            None => "unknown"@,
        },
    }
}

impl RequestInfo {
    /// The host that the request is for.
    pub fn host(&self) -> (h: &str)
        ensures
            h@ == host_of(self@),
    {
        match &self.authority {
            Some(a) => a.as_str(),
            None => match &self.host_header {
                Some(h) => h.as_str(),
                None => "unknown",
            },
        }
    }
}

} // verus!
