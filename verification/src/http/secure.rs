//! Requests over HTTPS.

use crate::http::text::{host_and_port, host_and_port_text, host_header, spec_host_header};
use crate::http::url::{
    parse_url, parsed_view, path_and_query, request_path, url_parse, UrlParts, UrlView,
};
use crate::types::{Endpoint, IpFamily};
use vstd::prelude::*;
use vstd::string::StringExecFns;

verus! {

/// Usual port of HTTPS.
pub const HTTPS_PORT: u16 = 443;

/// Longest wait in seconds for a connection.
pub const HTTP_CONNECT_TIMEOUT_SECS: u64 = 10;

/// Longest wait in seconds for each later part of a request.
pub const HTTP_REQUEST_TIMEOUT_SECS: u64 = 15;

/// What the requests call themselves.
pub const USER_AGENT_TEXT: &'static str = "telemt-middle-proxy/1";

/// A failure of the proxy.
#[derive(Debug)]
pub enum ProxyError {
    Proxy(String),
}

impl ProxyError {
    /// The message.
    pub open spec fn spec_message(self) -> Seq<char> {
        match self {
            ProxyError::Proxy(message) => message@,
        }
    }
}

/// What came of a request.
#[derive(Debug)]
pub struct HttpsGetResponse {
    pub status: u16,
    pub date_header: Option<String>,
    pub body: Vec<u8>,
}

/// Host, port and path of a request for `url`; or what is wrong with it.
pub open spec fn host_port_path(
    url: Seq<char>,
    parsed: Result<UrlView, Seq<char>>,
) -> Result<(Seq<char>, u16, Seq<char>), Seq<char>> {
    match parsed {
        Err(message) => Err("invalid URL '"@ + url + "': "@ + message),
        Ok(parts) => if parts.scheme != "https"@ {
            Err(
                "unsupported URL scheme '"@ + parts.scheme + "': only https is supported"@,
            )
        } else if parts.host is None {
            Err("URL has no host: "@ + url)
        } else if parts.port is None {
            Err("URL has no known port: "@ + url)
        } else {
            Ok((parts.host->0, parts.port->0, request_path(parts)))
        },
    }
}

/// The result is this, or the failure.
pub open spec fn is_host_port_path(
    result: Result<(String, u16, String), ProxyError>,
    expected: Result<(Seq<char>, u16, Seq<char>), Seq<char>>,
) -> bool {
    match result {
        Ok(t) => expected == Ok::<(Seq<char>, u16, Seq<char>), Seq<char>>((t.0@, t.1, t.2@)),
        Err(e) => expected == Err::<(Seq<char>, u16, Seq<char>), Seq<char>>(e.spec_message()),
    }
}

/// Host, port and path of a request for `url`, given what parsing made of it.
pub fn host_port_path_of(url: &str, parsed: Result<UrlParts, String>) -> (result: Result<
    (String, u16, String),
    ProxyError,
>)
    ensures
        is_host_port_path(result, host_port_path(url@, parsed_view(parsed))),
{
    let parts: UrlParts = match parsed {
        Ok(parts) => parts,
        Err(reason) => {
            let mut message: String = String::from_str("invalid URL '");
            message.append(url);
            message.append("': ");
            message.append(reason.as_str());
            return Err(ProxyError::Proxy(message));
        },
    };
    if parts.scheme != String::from_str("https") {
        let mut message: String = String::from_str("unsupported URL scheme '");
        message.append(parts.scheme.as_str());
        message.append("': only https is supported");
        return Err(ProxyError::Proxy(message));
    }
    let path: String = path_and_query(&parts);
    match (parts.host, parts.port) {
        (None, _) => {
            let mut message: String = String::from_str("URL has no host: ");
            message.append(url);
            Err(ProxyError::Proxy(message))
        },
        (Some(_), None) => {
            let mut message: String = String::from_str("URL has no known port: ");
            message.append(url);
            Err(ProxyError::Proxy(message))
        },
        (Some(host), Some(port)) => Ok((host, port, path)),
    }
}

/// Host, port and path of a request for `url`.
pub fn extract_host_port_path(url: &str) -> (result: Result<(String, u16, String), ProxyError>)
    ensures
        is_host_port_path(result, host_port_path(url@, url_parse(url@))),
{
    host_port_path_of(url, parse_url(url))
}

/// How a request travels.
#[derive(Clone, Copy, Debug, PartialEq, Eq, Structural)]
pub enum HttpsRoute {
    /// With a client of its own.
    Client,
    /// Over the upstream.
    Upstream,
    /// Over a connection to this address.
    Direct(Endpoint),
}

/// How a request travels.
pub open spec fn spec_https_route(
    has_upstream: bool,
    override_addr: Option<Endpoint>,
) -> HttpsRoute {
    if has_upstream {
        HttpsRoute::Upstream
    } else {
        match override_addr {
            Some(addr) => HttpsRoute::Direct(addr),
            None => HttpsRoute::Client,
        }
    }
}

/// A request travels over the upstream exactly where there is one, and otherwise
/// to the address that is set exactly where one is; that address is never
/// changed, and it does not matter while there is an upstream.
pub proof fn upstream_comes_before_the_set_address(
    has_upstream: bool,
    override_addr: Option<Endpoint>,
    addr: Endpoint,
)
    ensures
        spec_https_route(has_upstream, override_addr) is Upstream <==> has_upstream,
        spec_https_route(has_upstream, override_addr) == HttpsRoute::Direct(addr) <==> !has_upstream
            && override_addr == Some(addr),
        spec_https_route(has_upstream, override_addr) is Client <==> !has_upstream
            && override_addr is None,
{
}

/// Chooses how a request travels: over the upstream where there is one, over a
/// connection of its own where the address of the host is set, and otherwise
/// with a client.
pub fn https_route(has_upstream: bool, override_addr: Option<Endpoint>) -> (route: HttpsRoute)
    ensures
        route == if has_upstream {
            HttpsRoute::Upstream
        } else {
            match override_addr {
                Some(addr) => HttpsRoute::Direct(addr),
                None => HttpsRoute::Client,
            }
        },
        route == spec_https_route(has_upstream, override_addr),
{
    if has_upstream {
        HttpsRoute::Upstream
    } else {
        match override_addr {
            Some(addr) => HttpsRoute::Direct(addr),
            None => HttpsRoute::Client,
        }
    }
}

/// The address is the one to take: the first of version 4, or else the first.
pub open spec fn is_preferred(addrs: Seq<Endpoint>, addr: Endpoint) -> bool {
    exists|at: int|
        {
            &&& 0 <= at < addrs.len()
            &&& #[trigger] addrs[at] == addr
            &&& if addr.spec_family() == IpFamily::V4 {
                forall|i: int|
                    0 <= i < at ==> (#[trigger] addrs[i]).spec_family() != IpFamily::V4
            } else {
                at == 0 && forall|i: int|
                    0 <= i < addrs.len() ==> (#[trigger] addrs[i]).spec_family() != IpFamily::V4
            }
        }
}

/// The choice among the addresses of a host.
pub open spec fn is_resolved(
    addr: Result<Endpoint, ProxyError>,
    host: Seq<char>,
    port: u16,
    addrs: Seq<Endpoint>,
) -> bool {
    match addr {
        Ok(a) => is_preferred(addrs, a),
        Err(e) => addrs.len() == 0 && e.spec_message() == "DNS returned no addresses for "@
            + host_and_port(host, port),
    }
}

/// Chooses the address of a host among those that it resolves to: the first of
/// version 4, or else the first.
pub fn choose_resolved_addr(
    host: &str,
    port: u16,
    addrs: &Vec<Endpoint>,
) -> (addr: Result<Endpoint, ProxyError>)
    ensures
        match addr {
            Ok(a) => is_preferred(addrs@, a),
            Err(e) => addrs@.len() == 0 && e.spec_message() == "DNS returned no addresses for "@
                + host_and_port(host@, port),
        },
        is_resolved(addr, host@, port, addrs@),
{
    let mut i: usize = 0;
    while i < addrs.len()
        invariant
            i <= addrs@.len(),
            forall|k: int| 0 <= k < i ==> (#[trigger] addrs@[k]).spec_family() != IpFamily::V4,
        decreases addrs@.len() - i,
    {
        let addr: Endpoint = addrs[i];
        if addr.family() == IpFamily::V4 {
            assert(addrs@[i as int] == addr);
            return Ok(addr);
        }
        i = i + 1;
    }
    if addrs.len() > 0 {
        let addr: Endpoint = addrs[0];
        assert(addrs@[0] == addr);
        return Ok(addr);
    }
    let mut message: String = String::from_str("DNS returned no addresses for ");
    message.append(host_and_port_text(host, port).as_str());
    Err(ProxyError::Proxy(message))
}

/// Host header of a request over HTTPS.
pub fn https_host_header(host: &str, port: u16) -> (text: String)
    ensures
        text@ == spec_host_header(host@, port, HTTPS_PORT),
{
    host_header(host, port, HTTPS_PORT)
}

/// The failure of a request where requests over HTTPS are switched off.
pub fn https_disabled(url: &str) -> (e: ProxyError)
    ensures
        e.spec_message()
            == "HTTPS control-plane fetch is disabled in this build; use cached proxy-secret/proxy-config or enable the 'https-control-plane' feature for "@
            + url@,
{
    let mut message: String = String::from_str(
        "HTTPS control-plane fetch is disabled in this build; use cached proxy-secret/proxy-config or enable the 'https-control-plane' feature for ",
    );
    message.append(url);
    ProxyError::Proxy(message)
}

/// A host resolves to an address wherever there is one, and to one of version 4
/// wherever there is such a one.
pub proof fn version_4_is_preferred(addrs: Seq<Endpoint>, addr: Endpoint, i: int)
    requires
        is_preferred(addrs, addr),
        0 <= i < addrs.len(),
        addrs[i].spec_family() == IpFamily::V4,
    ensures
        addr.spec_family() == IpFamily::V4,
        addrs.contains(addr),
{
}

/// A request goes to an address of the scheme `https` with a host and a port, and
/// to no other: to just that host and port, for its path and query. Where there
/// is none, the failure names the address, or the scheme that is not supported.
pub proof fn only_secure_addresses_are_requested(
    url: Seq<char>,
    parsed: Result<UrlView, Seq<char>>,
)
    ensures
        ({
            let result = host_port_path(url, parsed);
            &&& result is Ok <==> parsed is Ok && parsed->Ok_0.scheme == "https"@
                && parsed->Ok_0.host is Some && parsed->Ok_0.port is Some
            &&& result matches Ok(t) ==> Some(t.0) == parsed->Ok_0.host && Some(t.1)
                == parsed->Ok_0.port && t.2 == request_path(parsed->Ok_0)
            &&& parsed matches Err(message) ==> exists|before: Seq<char>, between: Seq<char>|
                result->Err_0 == #[trigger] (before + url + between + message)
            &&& parsed is Ok && parsed->Ok_0.scheme != "https"@ ==> exists|
                before: Seq<char>,
                after: Seq<char>,
            |
                result->Err_0 == #[trigger] (before + parsed->Ok_0.scheme + after)
            &&& parsed is Ok && parsed->Ok_0.scheme == "https"@ && result is Err ==> exists|
                before: Seq<char>,
            |
                result->Err_0 == #[trigger] (before + url)
        }),
{
    let result = host_port_path(url, parsed);
    match parsed {
        Err(message) => {
            assert(result->Err_0 == "invalid URL '"@ + url + "': "@ + message);
        },
        Ok(parts) => {
            if parts.scheme != "https"@ {
                assert(result->Err_0 == "unsupported URL scheme '"@ + parts.scheme
                    + "': only https is supported"@);
            } else if parts.host is None {
                assert(result->Err_0 == "URL has no host: "@ + url);
            } else if parts.port is None {
                assert(result->Err_0 == "URL has no known port: "@ + url);
            }
        },
    }
}

/// The address taken is the first of version 4; where there is none of that
/// version, the first of all.
pub proof fn preferred_address_is_the_first(addrs: Seq<Endpoint>, addr: Endpoint, at: int)
    requires
        0 <= at < addrs.len(),
        addrs[at] is V4 || at == 0,
        addrs[at] is V4 ==> forall|i: int| 0 <= i < at ==> (#[trigger] addrs[i]) is V6,
        addrs[at] is V6 ==> forall|i: int| 0 <= i < addrs.len() ==> (#[trigger] addrs[i]) is V6,
    ensures
        is_preferred(addrs, addr) <==> addr == addrs[at],
{
    if is_preferred(addrs, addr) {
        let other = choose|other: int|
            {
                &&& 0 <= other < addrs.len()
                &&& #[trigger] addrs[other] == addr
                &&& if addr.spec_family() == IpFamily::V4 {
                    forall|i: int|
                        0 <= i < other ==> (#[trigger] addrs[i]).spec_family() != IpFamily::V4
                } else {
                    other == 0 && forall|i: int|
                        0 <= i < addrs.len() ==> (#[trigger] addrs[i]).spec_family()
                            != IpFamily::V4
                }
            };
        assert(addrs[at].spec_family() == IpFamily::V4 <==> addrs[at] is V4);
        assert(addrs[other].spec_family() == IpFamily::V4 <==> addrs[other] is V4);
        if other < at {
            assert(addrs[other] is V6);
        } else if at < other {
            assert(addrs[at].spec_family() != IpFamily::V4);
        }
    }
    assert(addrs[at] == addrs[at]);
    assert forall|i: int| 0 <= i < at implies (#[trigger] addrs[i]).spec_family()
        != IpFamily::V4 by {
        assert(addrs[i] is V6);
    }
    if addrs[at] is V6 {
        assert forall|i: int| 0 <= i < addrs.len() implies (#[trigger] addrs[i]).spec_family()
            != IpFamily::V4 by {
            assert(addrs[i] is V6);
        }
    }
}

/// A choice fails exactly where there is no address, and then names the host and
/// the port; any address that is chosen is one of those given.
pub proof fn choice_fails_without_an_address_only(
    addr: Result<Endpoint, ProxyError>,
    host: Seq<char>,
    port: u16,
    addrs: Seq<Endpoint>,
)
    requires
        is_resolved(addr, host, port, addrs),
    ensures
        addr is Err <==> addrs.len() == 0,
        addr matches Ok(a) ==> addrs.contains(a),
        addr matches Err(e) ==> exists|before: Seq<char>|
            e.spec_message() == #[trigger] (before + host_and_port(host, port)),
{
    if addr is Err {
        assert(addr->Err_0.spec_message() == "DNS returned no addresses for "@ + host_and_port(
            host,
            port,
        ));
    }
}

/// A result is what is expected exactly if both have the same host, port and
/// path, or both fail with the same message.
pub proof fn host_port_path_is_all_of_the_result(
    result: Result<(String, u16, String), ProxyError>,
    expected: Result<(Seq<char>, u16, Seq<char>), Seq<char>>,
)
    ensures
        is_host_port_path(result, expected) <==> match (result, expected) {
            (Ok(r), Ok(e)) => r.0@ == e.0 && r.1 == e.1 && r.2@ == e.2,
            (Err(ProxyError::Proxy(text)), Err(message)) => text@ == message,
            _ => false,
        },
{
}

} // verus!
