//! A request to the AI service: its method, HTTP version, URL, host and
//! headers, in the order they are sent, with their values.
use vstd::prelude::*;
use vstd::string::StringExecFns;

verus! {

/// A header of a request to the AI service.
#[derive(Debug, Clone, Copy, PartialEq, Eq, Structural)]
pub enum ServiceHeader {
    Host,
    /// The accepted body encoding (plain requests).
    AcceptEncoding,
    /// The body's encoding (plain requests with a compressed body).
    ContentEncoding,
    Authorization,
    /// The accepted encoding of stream frames (streaming requests).
    ConnectAcceptEncoding,
    /// The encoding of stream frames (streaming requests).
    ConnectContentEncoding,
    ConnectProtocolVersion,
    /// The content type: the Connect streaming type or plain protobuf.
    ContentType { streaming: bool },
    /// The session cookie, or the empty value when there is none.
    Cookie { present: bool },
    UserAgent,
    /// `Root=` and the trace id.
    AmznTraceId,
    ClientKey,
    Checksum,
    ClientVersion,
    /// The configuration version, when the session has one.
    ConfigVersion,
    Streaming,
    Timezone,
    /// The file-sync client key, when the request has one.
    FsClientKey,
    GhostMode,
    NewOnboardingCompleted,
    RequestId,
    SessionId,
}

/// The encoding headers around the authorization: for a plain request the
/// accepted encoding and, when the body is compressed, the body's; for a
/// stream the two frame encodings after the authorization.
pub open spec fn encoding_headers(streaming: bool, compressed: bool) -> Seq<ServiceHeader> {
    if streaming {
        seq![
            ServiceHeader::Host,
            ServiceHeader::Authorization,
            ServiceHeader::ConnectAcceptEncoding,
            ServiceHeader::ConnectContentEncoding,
        ]
    } else if compressed {
        seq![
            ServiceHeader::Host,
            ServiceHeader::AcceptEncoding,
            ServiceHeader::ContentEncoding,
            ServiceHeader::Authorization,
        ]
    } else {
        seq![ServiceHeader::Host, ServiceHeader::AcceptEncoding, ServiceHeader::Authorization]
    }
}

/// The headers every request has after the encodings, up to the client
/// version.
pub open spec fn common_headers(streaming: bool, has_cookie: bool) -> Seq<ServiceHeader> {
    seq![
        ServiceHeader::ConnectProtocolVersion,
        ServiceHeader::ContentType { streaming },
        ServiceHeader::Cookie { present: has_cookie },
        ServiceHeader::UserAgent,
        ServiceHeader::AmznTraceId,
        ServiceHeader::ClientKey,
        ServiceHeader::Checksum,
        ServiceHeader::ClientVersion,
    ]
}

/// The headers from the configuration version on: the configuration
/// version and the file-sync key only when they exist.
pub open spec fn session_headers(has_config_version: bool, has_fs_client_key: bool) -> Seq<
    ServiceHeader,
> {
    (if has_config_version {
        seq![ServiceHeader::ConfigVersion]
    } else {
        seq![]
    }) + seq![ServiceHeader::Streaming, ServiceHeader::Timezone] + (if has_fs_client_key {
        seq![ServiceHeader::FsClientKey]
    } else {
        seq![]
    }) + seq![
        ServiceHeader::GhostMode,
        ServiceHeader::NewOnboardingCompleted,
        ServiceHeader::RequestId,
        ServiceHeader::SessionId,
    ]
}

/// The headers of a request, in order.
pub open spec fn service_headers(
    streaming: bool,
    compressed: bool,
    has_cookie: bool,
    has_config_version: bool,
    has_fs_client_key: bool,
) -> Seq<ServiceHeader> {
    encoding_headers(streaming, compressed) + common_headers(streaming, has_cookie)
        + session_headers(has_config_version, has_fs_client_key)
}

pub broadcast proof fn lemma_push_contains(s: Seq<ServiceHeader>, y: ServiceHeader, x: ServiceHeader)
    ensures
        #[trigger] s.push(y).contains(x) <==> (s.contains(x) || y == x),
{
    if s.push(y).contains(x) {
        let i = choose|i: int| 0 <= i < s.push(y).len() && s.push(y)[i] == x;
        if i < s.len() {
            assert(s[i] == x);
        }
    }
    if s.contains(x) {
        let i = choose|i: int| 0 <= i < s.len() && s[i] == x;
        assert(s.push(y)[i] == x);
    }
    if y == x {
        assert(s.push(y)[s.len() as int] == x);
    }
}

pub broadcast proof fn lemma_concat_contains(a: Seq<ServiceHeader>, b: Seq<ServiceHeader>, x: ServiceHeader)
    ensures
        #[trigger] (a + b).contains(x) <==> (a.contains(x) || b.contains(x)),
{
    if (a + b).contains(x) {
        let i = choose|i: int| 0 <= i < (a + b).len() && (a + b)[i] == x;
        if i < a.len() {
            assert(a[i] == x);
        } else {
            assert(b[i - a.len()] == x);
        }
    }
    if a.contains(x) {
        let i = choose|i: int| 0 <= i < a.len() && a[i] == x;
        assert((a + b)[i] == x);
    }
    if b.contains(x) {
        let i = choose|i: int| 0 <= i < b.len() && b[i] == x;
        assert((a + b)[a.len() + i] == x);
    }
}

pub broadcast proof fn lemma_empty_contains(x: ServiceHeader)
    ensures
        !(#[trigger] Seq::<ServiceHeader>::empty().contains(x)),
{
}

/// Which headers a request has: the host first; the plain accepted
/// encoding exactly for a plain request, and the body's encoding exactly
/// for a plain request whose body is compressed; the two frame encodings
/// exactly for a stream; the content type of its kind; the cookie header
/// always (empty when there is no cookie); the configuration version and
/// the file-sync key exactly when they exist; the authorization, trace,
/// request id and session id always.
pub proof fn lemma_headers_present(
    streaming: bool,
    compressed: bool,
    has_cookie: bool,
    has_config_version: bool,
    has_fs_client_key: bool,
)
    ensures
        ({
            let hs = service_headers(
                streaming,
                compressed,
                has_cookie,
                has_config_version,
                has_fs_client_key,
            );
            &&& hs[0] == ServiceHeader::Host
            &&& hs.contains(ServiceHeader::ContentEncoding) <==> (!streaming && compressed)
            &&& hs.contains(ServiceHeader::AcceptEncoding) <==> !streaming
            &&& hs.contains(ServiceHeader::ConnectAcceptEncoding) <==> streaming
            &&& hs.contains(ServiceHeader::ConnectContentEncoding) <==> streaming
            &&& hs.contains(ServiceHeader::ContentType { streaming })
            &&& !hs.contains(ServiceHeader::ContentType { streaming: !streaming })
            &&& hs.contains(ServiceHeader::Cookie { present: has_cookie })
            &&& hs.contains(ServiceHeader::ConfigVersion) <==> has_config_version
            &&& hs.contains(ServiceHeader::FsClientKey) <==> has_fs_client_key
            &&& hs.contains(ServiceHeader::Authorization)
            &&& hs.contains(ServiceHeader::AmznTraceId)
            &&& hs.contains(ServiceHeader::RequestId)
            &&& hs.contains(ServiceHeader::SessionId)
        }),
{
    broadcast use lemma_push_contains, lemma_concat_contains, lemma_empty_contains;

    let e = encoding_headers(streaming, compressed);
    let c = common_headers(streaming, has_cookie);
    let s = session_headers(has_config_version, has_fs_client_key);
    assert((e + c + s)[0] == e[0]);
}

fn encoding_part(streaming: bool, compressed: bool) -> (r: Vec<ServiceHeader>)
    ensures
        r@ == encoding_headers(streaming, compressed),
{
    let r = if streaming {
        vec![
            ServiceHeader::Host,
            ServiceHeader::Authorization,
            ServiceHeader::ConnectAcceptEncoding,
            ServiceHeader::ConnectContentEncoding,
        ]
    } else if compressed {
        vec![
            ServiceHeader::Host,
            ServiceHeader::AcceptEncoding,
            ServiceHeader::ContentEncoding,
            ServiceHeader::Authorization,
        ]
    } else {
        vec![ServiceHeader::Host, ServiceHeader::AcceptEncoding, ServiceHeader::Authorization]
    };
    assert(r@ =~= encoding_headers(streaming, compressed));
    r
}

fn common_part(streaming: bool, has_cookie: bool) -> (r: Vec<ServiceHeader>)
    ensures
        r@ == common_headers(streaming, has_cookie),
{
    let r = vec![
        ServiceHeader::ConnectProtocolVersion,
        ServiceHeader::ContentType { streaming },
        ServiceHeader::Cookie { present: has_cookie },
        ServiceHeader::UserAgent,
        ServiceHeader::AmznTraceId,
        ServiceHeader::ClientKey,
        ServiceHeader::Checksum,
        ServiceHeader::ClientVersion,
    ];
    assert(r@ =~= common_headers(streaming, has_cookie));
    r
}

fn session_part(has_config_version: bool, has_fs_client_key: bool) -> (r: Vec<ServiceHeader>)
    ensures
        r@ == session_headers(has_config_version, has_fs_client_key),
{
    let mut r: Vec<ServiceHeader> = Vec::new();
    if has_config_version {
        r.push(ServiceHeader::ConfigVersion);
    }
    r.push(ServiceHeader::Streaming);
    r.push(ServiceHeader::Timezone);
    if has_fs_client_key {
        r.push(ServiceHeader::FsClientKey);
    }
    r.push(ServiceHeader::GhostMode);
    r.push(ServiceHeader::NewOnboardingCompleted);
    r.push(ServiceHeader::RequestId);
    r.push(ServiceHeader::SessionId);
    assert(r@ =~= session_headers(has_config_version, has_fs_client_key));
    r
}

/// The headers of a request to the AI service, in the order they are sent.
pub fn build_client_request(
    streaming: bool,
    compressed: bool,
    has_cookie: bool,
    has_config_version: bool,
    has_fs_client_key: bool,
) -> (r: Vec<ServiceHeader>)
    ensures
        r@ == service_headers(
            streaming,
            compressed,
            has_cookie,
            has_config_version,
            has_fs_client_key,
        ),
{
    let mut h = encoding_part(streaming, compressed);
    let mut common = common_part(streaming, has_cookie);
    let mut session = session_part(has_config_version, has_fs_client_key);
    h.append(&mut common);
    h.append(&mut session);
    h
}

/// The trace header's value: `Root=` followed by the 36 bytes of the trace
/// id.
pub fn amzn_trace_value(trace_id: &[u8; 36]) -> (r: [u8; 41])
    ensures
        r@ == seq![82u8, 111u8, 111u8, 116u8, 61u8] + trace_id@,
{
    let mut r = [0u8; 41];
    r[0] = 82;
    r[1] = 111;
    r[2] = 111;
    r[3] = 116;
    r[4] = 61;
    let mut i: usize = 0;
    while i < 36
        invariant
            i <= 36,
            r@.len() == 41,
            r@[0] == 82u8 && r@[1] == 111u8 && r@[2] == 111u8 && r@[3] == 116u8 && r@[4] == 61u8,
            forall|k: int| 0 <= k < i ==> r@[5 + k] == trace_id@[k],
        decreases 36 - i,
    {
        r[5 + i] = trace_id[i];
        i = i + 1;
    }
    assert(r@ =~= seq![82u8, 111u8, 111u8, 116u8, 61u8] + trace_id@);
    r
}

/// What a session gives the headers of its requests.
pub struct SessionValues {
    /// The `Authorization` value (the bearer token).
    pub authorization: String,
    /// The session cookie, if any.
    pub cookie: Option<String>,
    pub user_agent: String,
    pub client_key: String,
    pub checksum: String,
    pub client_version: String,
    /// The configuration version, if the session has one.
    pub config_version: Option<String>,
    pub timezone: String,
    /// The file-sync client key, if the request has one.
    pub fs_client_key: Option<String>,
    pub session_id: String,
}

/// The text of an optional value: the value, or nothing.
pub open spec fn opt_text(v: Option<String>) -> Seq<char> {
    match v {
        Some(s) => s@,
        None => Seq::empty(),
    }
}

/// The value of a header: the host; `gzip` for the encodings; `1` for the
/// protocol version; the Connect streaming or plain protobuf content type;
/// `Root=` and the trace id for the trace header; the trace id itself as the
/// request id; `true` for streaming and ghost mode, `false` for the
/// onboarding flag; the session's values for the rest (an absent cookie as
/// the empty value).
pub open spec fn header_value(h: ServiceHeader, host: Seq<char>, trace_id: Seq<char>, v: SessionValues) -> Seq<char> {
    match h {
        ServiceHeader::Host => host,
        ServiceHeader::AcceptEncoding | ServiceHeader::ContentEncoding
        | ServiceHeader::ConnectAcceptEncoding | ServiceHeader::ConnectContentEncoding => "gzip"@,
        ServiceHeader::Authorization => v.authorization@,
        ServiceHeader::ConnectProtocolVersion => "1"@,
        ServiceHeader::ContentType { streaming } => if streaming {
            "application/connect+proto"@
        } else {
            "application/proto"@
        },
        ServiceHeader::Cookie { .. } => opt_text(v.cookie),
        ServiceHeader::UserAgent => v.user_agent@,
        ServiceHeader::AmznTraceId => "Root="@ + trace_id,
        ServiceHeader::ClientKey => v.client_key@,
        ServiceHeader::Checksum => v.checksum@,
        ServiceHeader::ClientVersion => v.client_version@,
        ServiceHeader::ConfigVersion => opt_text(v.config_version),
        ServiceHeader::Streaming | ServiceHeader::GhostMode => "true"@,
        ServiceHeader::Timezone => v.timezone@,
        ServiceHeader::FsClientKey => opt_text(v.fs_client_key),
        ServiceHeader::NewOnboardingCompleted => "false"@,
        ServiceHeader::RequestId => trace_id,
        ServiceHeader::SessionId => v.session_id@,
    }
}

/// The values of the fixed headers: every encoding header says `gzip`; the
/// content type is the Connect streaming type for a stream and plain
/// protobuf otherwise; the trace header is `Root=` and the trace id, and
/// the request id is the trace id itself; the host header is the host;
/// streaming and ghost mode are `true`, the onboarding flag `false`; the
/// cookie is the session's cookie, or empty without one.
pub proof fn lemma_fixed_header_values(host: Seq<char>, trace_id: Seq<char>, v: SessionValues)
    ensures
        header_value(ServiceHeader::Host, host, trace_id, v) == host,
        header_value(ServiceHeader::AcceptEncoding, host, trace_id, v) == "gzip"@,
        header_value(ServiceHeader::ContentEncoding, host, trace_id, v) == "gzip"@,
        header_value(ServiceHeader::ConnectAcceptEncoding, host, trace_id, v) == "gzip"@,
        header_value(ServiceHeader::ConnectContentEncoding, host, trace_id, v) == "gzip"@,
        header_value(ServiceHeader::ContentType { streaming: true }, host, trace_id, v)
            == "application/connect+proto"@,
        header_value(ServiceHeader::ContentType { streaming: false }, host, trace_id, v)
            == "application/proto"@,
        header_value(ServiceHeader::AmznTraceId, host, trace_id, v) == "Root="@ + trace_id,
        header_value(ServiceHeader::RequestId, host, trace_id, v) == trace_id,
        header_value(ServiceHeader::Streaming, host, trace_id, v) == "true"@,
        header_value(ServiceHeader::GhostMode, host, trace_id, v) == "true"@,
        header_value(ServiceHeader::NewOnboardingCompleted, host, trace_id, v) == "false"@,
        header_value(ServiceHeader::Authorization, host, trace_id, v) == v.authorization@,
        header_value(ServiceHeader::SessionId, host, trace_id, v) == v.session_id@,
        v.cookie is None ==> header_value(ServiceHeader::Cookie { present: false }, host, trace_id, v).len() == 0,
        v.cookie matches Some(c) ==> header_value(ServiceHeader::Cookie { present: true }, host, trace_id, v) == c@,
{
}

fn copy_opt(v: &Option<String>) -> (r: String)
    ensures
        r@ == opt_text(*v),
{
    match v {
        Some(s) => s.clone(),
        None => String::new(),
    }
}

/// The value of a header.
pub fn header_value_of(h: ServiceHeader, host: &str, trace_id: &str, v: &SessionValues) -> (r: String)
    ensures
        r@ == header_value(h, host@, trace_id@, *v),
{
    match h {
        ServiceHeader::Host => String::from_str(host),
        ServiceHeader::AcceptEncoding | ServiceHeader::ContentEncoding
        | ServiceHeader::ConnectAcceptEncoding | ServiceHeader::ConnectContentEncoding => String::from_str("gzip"),
        ServiceHeader::Authorization => v.authorization.clone(),
        ServiceHeader::ConnectProtocolVersion => String::from_str("1"),
        ServiceHeader::ContentType { streaming } => if streaming {
            String::from_str("application/connect+proto")
        } else {
            String::from_str("application/proto")
        },
        ServiceHeader::Cookie { .. } => copy_opt(&v.cookie),
        ServiceHeader::UserAgent => v.user_agent.clone(),
        ServiceHeader::AmznTraceId => {
            let mut t = String::from_str("Root=");
            t.append(trace_id);
            t
        },
        ServiceHeader::ClientKey => v.client_key.clone(),
        ServiceHeader::Checksum => v.checksum.clone(),
        ServiceHeader::ClientVersion => v.client_version.clone(),
        ServiceHeader::ConfigVersion => copy_opt(&v.config_version),
        ServiceHeader::Streaming | ServiceHeader::GhostMode => String::from_str("true"),
        ServiceHeader::Timezone => v.timezone.clone(),
        ServiceHeader::FsClientKey => copy_opt(&v.fs_client_key),
        ServiceHeader::NewOnboardingCompleted => String::from_str("false"),
        ServiceHeader::RequestId => String::from_str(trace_id),
        ServiceHeader::SessionId => v.session_id.clone(),
    }
}

/// The reverse proxies configured for the private and the public service.
pub struct ReverseProxies {
    pub private_host: Option<String>,
    pub public_host: Option<String>,
}

/// The proxy that a request goes through, if any: the private one for a
/// private request, the public one for a public request.
pub open spec fn chosen_proxy(use_private: bool, proxies: ReverseProxies) -> Option<String> {
    if use_private {
        proxies.private_host
    } else {
        proxies.public_host
    }
}

#[derive(Debug, Clone, Copy, PartialEq, Eq, Structural)]
pub enum HttpMethod {
    Get,
    Post,
}

#[derive(Debug, Clone, Copy, PartialEq, Eq, Structural)]
pub enum HttpVersion {
    Http11,
    Http2,
}

/// A request to the AI service, ready to be sent.
pub struct ServiceRequest {
    pub method: HttpMethod,
    pub version: HttpVersion,
    pub url: String,
    /// Through a reverse proxy, the real host, sent first as the proxy's
    /// host header.
    pub proxy_host: Option<String>,
    /// The headers, in the order they are sent, with their values.
    pub headers: Vec<(ServiceHeader, String)>,
}

/// A request to the AI service: a POST to `url` over HTTP/2.  Its host is
/// `real_host`, or where a reverse proxy is configured for the request's
/// side (private or public), the proxy's host, the real host then going in
/// the proxy's host header.  Its headers are those of `service_headers`, in
/// order, with the values of `header_value`.
pub fn build_service_request(
    url: &str,
    real_host: &str,
    use_private: bool,
    proxies: &ReverseProxies,
    streaming: bool,
    compressed: bool,
    trace_id: &str,
    v: &SessionValues,
) -> (r: ServiceRequest)
    ensures
        r.method == HttpMethod::Post,
        r.version == HttpVersion::Http2,
        r.url@ == url@,
        ({
            let host = match chosen_proxy(use_private, *proxies) {
                Some(p) => p@,
                None => real_host@,
            };
            let hs = service_headers(
                streaming,
                compressed,
                v.cookie is Some,
                v.config_version is Some,
                v.fs_client_key is Some,
            );
            &&& (match chosen_proxy(use_private, *proxies) {
                Some(_) => r.proxy_host matches Some(h) && h@ == real_host@,
                None => r.proxy_host is None,
            })
            &&& r.headers@.len() == hs.len()
            &&& forall|i: int|
                0 <= i < hs.len() ==> (#[trigger] r.headers@[i]).0 == hs[i] && r.headers@[i].1@
                    == header_value(hs[i], host, trace_id@, *v)
        }),
{
    let chosen = if use_private {
        &proxies.private_host
    } else {
        &proxies.public_host
    };
    let (host, proxy_host) = match chosen {
        Some(p) => (p.clone(), Some(String::from_str(real_host))),
        None => (String::from_str(real_host), None),
    };
    let hs = build_client_request(
        streaming,
        compressed,
        v.cookie.is_some(),
        v.config_version.is_some(),
        v.fs_client_key.is_some(),
    );
    let mut headers: Vec<(ServiceHeader, String)> = Vec::new();
    let mut i: usize = 0;
    while i < hs.len()
        invariant
            i <= hs@.len(),
            headers@.len() == i,
            forall|k: int|
                0 <= k < i ==> (#[trigger] headers@[k]).0 == hs@[k] && headers@[k].1@
                    == header_value(hs@[k], host@, trace_id@, *v),
        decreases hs.len() - i,
    {
        let h = hs[i];
        let value = header_value_of(h, host.as_str(), trace_id, v);
        headers.push((h, value));
        i = i + 1;
    }
    ServiceRequest {
        method: HttpMethod::Post,
        version: HttpVersion::Http2,
        url: String::from_str(url),
        proxy_host,
        headers,
    }
}

} // verus!
