//! Addresses of requests.

use vstd::prelude::*;
use vstd::string::StringExecFns;

verus! {

/// An address taken apart.
#[derive(Debug)]
pub struct UrlParts {
    pub scheme: String,
    pub host: Option<String>,
    /// The port of the address, or the usual one of its scheme.
    pub port: Option<u16>,
    pub path: String,
    pub query: Option<String>,
}

/// An address taken apart, as sequences.
pub struct UrlView {
    pub scheme: Seq<char>,
    pub host: Option<Seq<char>>,
    pub port: Option<u16>,
    pub path: Seq<char>,
    pub query: Option<Seq<char>>,
}

/// Characters of a text that may be missing.
pub open spec fn view_of(text: Option<String>) -> Option<Seq<char>> {
    match text {
        Some(t) => Some(t@),
        None => None,
    }
}

impl View for UrlParts {
    type V = UrlView;

    open spec fn view(&self) -> UrlView {
        UrlView {
            scheme: self.scheme@,
            host: view_of(self.host),
            port: self.port,
            path: self.path@,
            query: view_of(self.query),
        }
    }
}

/// An address that was parsed, as sequences; or what is wrong with it.
pub open spec fn parsed_view(parsed: Result<UrlParts, String>) -> Result<UrlView, Seq<char>> {
    match parsed {
        Ok(parts) => Ok(parts@),
        Err(message) => Err(message@),
    }
}

/// What `url::Url::parse` makes of a text, or what it says is wrong with it.
pub uninterp spec fn url_parse(text: Seq<char>) -> Result<UrlView, Seq<char>>;

/// Takes an address apart with `url::Url::parse`. The parts are those that the
/// methods `scheme`, `host_str`, `port_or_known_default`, `path` and `query` of
/// the address give; an error is given by its text. The contract claims that
/// the outcome depends on the text alone, not what it is.
#[verifier::external_body]
pub(crate) fn parse_url(text: &str) -> (parsed: Result<UrlParts, String>)
    ensures
        parsed_view(parsed) == url_parse(text@),
{
    match url::Url::parse(text) {
        Ok(url) => Ok(UrlParts {
            scheme: url.scheme().to_string(),
            host: url.host_str().map(str::to_string),
            port: url.port_or_known_default(),
            path: url.path().to_string(),
            query: url.query().map(str::to_string),
        }),
        Err(e) => Err(e.to_string()),
    }
}

/// Path of a request: that of the address, a slash where it has none, and the
/// query behind a question mark.
pub open spec fn request_path(url: UrlView) -> Seq<char> {
    let path = if url.path.len() == 0 {
        "/"@
    } else {
        url.path
    };
    match url.query {
        Some(query) => path + "?"@ + query,
        None => path,
    }
}

/// Path of a request: that of the address, a slash where it has none, and the
/// query behind a question mark.
pub fn path_and_query(parts: &UrlParts) -> (path: String)
    ensures
        path@ == request_path(parts@),
{
    let mut path: String = if parts.path.as_str().is_empty() {
        String::from_str("/")
    } else {
        parts.path.clone()
    };
    match &parts.query {
        Some(query) => {
            path.append("?");
            path.append(query.as_str());
        },
        None => {},
    }
    path
}

/// What is asked for is the path of the address, or a slash where it is empty,
/// and then, where there is a query, a question mark and the query.
pub proof fn request_path_is_path_and_query(url: UrlView)
    ensures
        ({
            let asked = request_path(url);
            let n = if url.path.len() == 0 {
                1
            } else {
                url.path.len() as int
            };
            &&& asked.len() >= n
            &&& url.path.len() == 0 ==> asked[0] == '/'
            &&& url.path.len() > 0 ==> asked.take(n) == url.path
            &&& url.query is None ==> asked.len() == n
            &&& url.query matches Some(query) ==> asked.len() == n + 1 + query.len() && asked[n]
                == '?' && asked.skip(n + 1) == query
        }),
{
    reveal_strlit("/");
    reveal_strlit("?");
    let asked = request_path(url);
    let n = if url.path.len() == 0 {
        1
    } else {
        url.path.len() as int
    };
    if url.path.len() > 0 {
        assert(asked.take(n) =~= url.path);
    }
    if url.query is Some {
        assert(asked.skip(n + 1) =~= url.query->0);
    }
}

/// The parts of an address are seen as they are, one by one.
pub proof fn parts_are_seen_one_by_one(parts: UrlParts, parsed: Result<UrlParts, String>)
    ensures
        parts@.scheme == parts.scheme@,
        parts@.port == parts.port,
        parts@.path == parts.path@,
        parts.host matches Some(host) ==> parts@.host == Some(host@),
        parts.host is None <==> parts@.host is None,
        parts.query matches Some(query) ==> parts@.query == Some(query@),
        parts.query is None <==> parts@.query is None,
        parsed matches Ok(p) ==> parsed_view(parsed) == Ok::<UrlView, Seq<char>>(p@),
        parsed matches Err(message) ==> parsed_view(parsed) == Err::<UrlView, Seq<char>>(message@),
{
}

} // verus!
