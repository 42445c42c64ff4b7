//! Requests over plain HTTP.
//!
//! Only addresses of the scheme `http` are taken.

use crate::http::response::{HttpError, HttpErrorKind};
use crate::http::text::{host_header, spec_host_header};
use crate::http::url::{
    parse_url, parsed_view, path_and_query, request_path, url_parse, UrlParts, UrlView,
};
use vstd::prelude::*;
use vstd::string::StringExecFns;

verus! {

/// Usual port of plain HTTP.
pub const HTTP_PORT: u16 = 80;

/// Where a request goes and what it asks for.
#[derive(Debug)]
pub struct HttpTarget {
    pub host: String,
    pub port: u16,
    pub path: String,
}

/// Host, port and path of a request; or why there is none.
pub open spec fn target_of_url(url: Result<UrlView, Seq<char>>) -> Result<
    (Seq<char>, u16, Seq<char>),
    (HttpErrorKind, Seq<char>),
> {
    match url {
        Err(message) => Err((HttpErrorKind::InvalidInput, message)),
        Ok(url) => if url.scheme != "http"@ {
            Err((HttpErrorKind::Unsupported, "unsupported URL scheme '"@ + url.scheme + "'"@))
        } else if url.host is None {
            Err((HttpErrorKind::InvalidInput, "URL has no host"@))
        } else if url.port is None {
            Err((HttpErrorKind::InvalidInput, "URL has no known port"@))
        } else {
            Ok((url.host->0, url.port->0, request_path(url)))
        },
    }
}

/// The target is this, or the failure.
pub open spec fn is_target(
    target: Result<HttpTarget, HttpError>,
    expected: Result<(Seq<char>, u16, Seq<char>), (HttpErrorKind, Seq<char>)>,
) -> bool {
    match target {
        Ok(t) => expected == Ok::<(Seq<char>, u16, Seq<char>), (HttpErrorKind, Seq<char>)>(
            (t.host@, t.port, t.path@),
        ),
        Err(e) => expected == Err::<(Seq<char>, u16, Seq<char>), (HttpErrorKind, Seq<char>)>(
            e.spec_reason(),
        ),
    }
}

/// Where a request for an address goes, given what parsing made of it.
pub fn target_of(parsed: Result<UrlParts, String>) -> (target: Result<HttpTarget, HttpError>)
    ensures
        is_target(target, target_of_url(parsed_view(parsed))),
{
    let parts: UrlParts = match parsed {
        Ok(parts) => parts,
        Err(message) => {
            return Err(invalid_input(message));
        },
    };
    if parts.scheme != String::from_str("http") {
        let mut message: String = String::from_str("unsupported URL scheme '");
        message.append(parts.scheme.as_str());
        message.append("'");
        return Err(HttpError { kind: HttpErrorKind::Unsupported, message });
    }
    let path: String = path_and_query(&parts);
    match (parts.host, parts.port) {
        (None, _) => Err(HttpError::new(HttpErrorKind::InvalidInput, "URL has no host")),
        (Some(_), None) => Err(
            HttpError::new(HttpErrorKind::InvalidInput, "URL has no known port"),
        ),
        (Some(host), Some(port)) => Ok(HttpTarget { host, port, path }),
    }
}

/// The failure of an address that cannot be parsed.
pub fn invalid_input(message: String) -> (e: HttpError)
    ensures
        e.spec_reason() == (HttpErrorKind::InvalidInput, message@),
{
    HttpError { kind: HttpErrorKind::InvalidInput, message }
}

/// Where a request for an address goes.
pub fn plain_target(url: &str) -> (target: Result<HttpTarget, HttpError>)
    ensures
        is_target(target, target_of_url(url_parse(url@))),
{
    target_of(parse_url(url))
}

/// Text of a request.
pub open spec fn spec_request_text(host: Seq<char>, port: u16, path: Seq<char>) -> Seq<char> {
    "GET "@ + path + " HTTP/1.1\r\nHost: "@ + spec_host_header(host, port, HTTP_PORT)
        + "\r\nUser-Agent: telemt/1\r\nConnection: close\r\nAccept: text/plain,*/*;q=0.1\r\n\r\n"@
}

/// Text of a request.
pub fn request_text(target: &HttpTarget) -> (text: String)
    ensures
        text@ == spec_request_text(target.host@, target.port, target.path@),
{
    let mut text: String = String::from_str("GET ");
    text.append(target.path.as_str());
    text.append(" HTTP/1.1\r\nHost: ");
    text.append(host_header(target.host.as_str(), target.port, HTTP_PORT).as_str());
    text.append(
        "\r\nUser-Agent: telemt/1\r\nConnection: close\r\nAccept: text/plain,*/*;q=0.1\r\n\r\n",
    );
    text
}

/// No request goes anywhere but to an address of the scheme `http` with a host
/// and a port, and it goes to just these.
pub proof fn only_plain_addresses_are_requested(url: Result<UrlView, Seq<char>>)
    ensures
        target_of_url(url) is Ok <==> url is Ok && url->Ok_0.scheme == "http"@
            && url->Ok_0.host is Some && url->Ok_0.port is Some,
        target_of_url(url) matches Ok(target) ==> Some(target.0) == url->Ok_0.host && Some(target.1)
            == url->Ok_0.port,
{
}

/// An address that cannot be parsed is refused with the reason of the parser;
/// one of another scheme is unsupported and the scheme is named; one without a
/// host or a port is invalid. What is asked for is the path and query of the
/// address.
pub proof fn unfit_addresses_are_refused(url: Result<UrlView, Seq<char>>)
    ensures
        url matches Err(message) ==> target_of_url(url) == Err::<
            (Seq<char>, u16, Seq<char>),
            (HttpErrorKind, Seq<char>),
        >((HttpErrorKind::InvalidInput, message)),
        url matches Ok(parts) ==> {
            let target = target_of_url(url);
            &&& parts.scheme != "http"@ <==> target is Err && target->Err_0.0
                == HttpErrorKind::Unsupported
            &&& parts.scheme != "http"@ ==> exists|before: Seq<char>, after: Seq<char>|
                target->Err_0.1 == #[trigger] (before + parts.scheme + after)
            &&& parts.scheme == "http"@ && (parts.host is None || parts.port is None) <==> target
                is Err && target->Err_0.0 == HttpErrorKind::InvalidInput
            &&& target is Ok ==> target->Ok_0.2 == request_path(parts)
        },
{
    if url is Ok && url->Ok_0.scheme != "http"@ {
        assert(target_of_url(url)->Err_0.1 == "unsupported URL scheme '"@ + url->Ok_0.scheme
            + "'"@);
    }
}

/// A request begins with its method and its path, names the host next, and ends
/// with a blank line.
pub proof fn request_names_path_and_host(host: Seq<char>, port: u16, path: Seq<char>)
    ensures
        ({
            let text = spec_request_text(host, port, path);
            let header = spec_host_header(host, port, HTTP_PORT);
            let n = path.len() as int;
            let h = header.len() as int;
            &&& text.len() >= n + h + 25
            &&& text.take(4) == "GET "@
            &&& text.subrange(4, 4 + n) == path
            &&& text.subrange(4 + n, 21 + n) == " HTTP/1.1\r\nHost: "@
            &&& text.subrange(21 + n, 21 + n + h) == header
            &&& text.subrange(text.len() - 4, text.len() as int) == seq!['\r', '\n', '\r', '\n']
        }),
{
    reveal_strlit("GET ");
    reveal_strlit(" HTTP/1.1\r\nHost: ");
    reveal_strlit(
        "\r\nUser-Agent: telemt/1\r\nConnection: close\r\nAccept: text/plain,*/*;q=0.1\r\n\r\n",
    );
    let text = spec_request_text(host, port, path);
    let header = spec_host_header(host, port, HTTP_PORT);
    let n = path.len() as int;
    let h = header.len() as int;
    assert(text.take(4) =~= "GET "@);
    assert(text.subrange(4, 4 + n) =~= path);
    assert(text.subrange(4 + n, 21 + n) =~= " HTTP/1.1\r\nHost: "@);
    assert(text.subrange(21 + n, 21 + n + h) =~= header);
    assert(text.subrange(text.len() - 4, text.len() as int) =~= seq!['\r', '\n', '\r', '\n']);
}

/// A target is what is expected exactly if both have the same host, port and
/// path, or both fail with the same kind and message.
pub proof fn target_is_all_of_the_result(
    target: Result<HttpTarget, HttpError>,
    expected: Result<(Seq<char>, u16, Seq<char>), (HttpErrorKind, Seq<char>)>,
)
    ensures
        is_target(target, expected) <==> match (target, expected) {
            (Ok(t), Ok(e)) => t.host@ == e.0 && t.port == e.1 && t.path@ == e.2,
            (Err(f), Err((kind, message))) => f.kind == kind && f.message@ == message,
            _ => false,
        },
{
}

} // verus!
