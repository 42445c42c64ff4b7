//! Responses as they come from the wire.

use crate::http::status::{parse_status, status_of};
use crate::http::text::{decimal, decimal_text};
use vstd::prelude::*;
use vstd::slice::slice_subrange;
use vstd::string::StringExecFns;
use vstd::utf8::{
    decode_utf8, encode_utf8, encode_utf8_decode_utf8, encode_utf8_valid_utf8, valid_utf8,
};

verus! {

/// Most bytes of a response that are read.
pub const MAX_HTTP_RESPONSE_BYTES: usize = 64 * 1024;

/// Why a request failed.
#[derive(Clone, Copy, Debug, PartialEq, Eq, Structural)]
pub enum HttpErrorKind {
    InvalidInput,
    Unsupported,
    InvalidData,
    Other,
}

/// A request that failed.
#[derive(Debug)]
pub struct HttpError {
    pub kind: HttpErrorKind,
    pub message: String,
}

impl HttpError {
    /// A failure with this message.
    pub fn new(kind: HttpErrorKind, message: &str) -> (e: HttpError)
        ensures
            e.kind == kind,
            e.message@ == message@,
    {
        HttpError { kind, message: String::from_str(message) }
    }

    /// Kind and message.
    pub open spec fn spec_reason(self) -> (HttpErrorKind, Seq<char>) {
        (self.kind, self.message@)
    }
}

/// The blank line that ends the headers begins at `i`.
pub open spec fn blank_line_at(bytes: Seq<u8>, i: int) -> bool {
    &&& 0 <= i
    &&& i + 4 <= bytes.len()
    &&& bytes[i] == 13
    &&& bytes[i + 1] == 10
    &&& bytes[i + 2] == 13
    &&& bytes[i + 3] == 10
}

/// The first blank line begins at `end`.
pub open spec fn is_header_end(bytes: Seq<u8>, end: Option<usize>) -> bool {
    match end {
        Some(i) => blank_line_at(bytes, i as int) && forall|j: int|
            0 <= j < i ==> !#[trigger] blank_line_at(bytes, j),
        None => forall|j: int| !#[trigger] blank_line_at(bytes, j),
    }
}

/// Finds the end of the headers: the first blank line.
pub fn find_header_end(bytes: &[u8]) -> (end: Option<usize>)
    ensures
        is_header_end(bytes@, end),
{
    let mut i: usize = 0;
    while i < bytes.len() && bytes.len() - i >= 4
        invariant
            i <= bytes@.len(),
            forall|j: int| 0 <= j < i ==> !#[trigger] blank_line_at(bytes@, j),
        decreases bytes@.len() - i,
    {
        if bytes[i] == 13 && bytes[i + 1] == 10 && bytes[i + 2] == 13 && bytes[i + 3] == 10 {
            return Some(i);
        }
        i = i + 1;
    }
    None
}

/// What `std::str::from_utf8` says of bytes that are no UTF-8.
pub uninterp spec fn utf8_error_text(bytes: Seq<u8>) -> Seq<char>;

/// Bytes as text, by `std::str::from_utf8`: the text that they encode, or what
/// the function says where they are no UTF-8. The wording is not stated.
#[verifier::external_body]
fn text_from_utf8(bytes: &[u8]) -> (text: Result<String, String>)
    ensures
        match text {
            Ok(t) => valid_utf8(bytes@) && t@ == decode_utf8(bytes@),
            Err(message) => !valid_utf8(bytes@) && message@ == utf8_error_text(bytes@),
        },
{
    match std::str::from_utf8(bytes) {
        Ok(text) => Ok(text.to_string()),
        Err(e) => Err(e.to_string()),
    }
}

/// What `String::from_utf8_lossy` makes of bytes.
pub uninterp spec fn utf8_lossy(bytes: Seq<u8>) -> Seq<char>;

/// Bytes as text, by `String::from_utf8_lossy`: the text that they encode. What
/// comes in place of bytes that are no UTF-8 is not stated.
#[verifier::external_body]
fn text_from_utf8_lossy(bytes: &[u8]) -> (text: String)
    ensures
        text@ == utf8_lossy(bytes@),
        valid_utf8(bytes@) ==> text@ == decode_utf8(bytes@),
{
    String::from_utf8_lossy(bytes).into_owned()
}

/// Text of a response, or why there is none. The headers are given as text, or
/// as what is wrong with them; the body is given as text.
pub open spec fn text_of_response(
    headers: Result<Seq<char>, Seq<char>>,
    body: Seq<char>,
) -> Result<Seq<char>, (HttpErrorKind, Seq<char>)> {
    match headers {
        Err(message) => Err((HttpErrorKind::InvalidData, message)),
        Ok(headers) => match status_of(headers) {
            Err(message) => Err((HttpErrorKind::InvalidData, message)),
            Ok(status) => if 200 <= status <= 299 {
                Ok(body)
            } else {
                Err((HttpErrorKind::Other, "HTTP status "@ + decimal(status as nat)))
            },
        },
    }
}

/// Headers of a response as text, or what is wrong with them.
pub open spec fn headers_text(bytes: Seq<u8>) -> Result<Seq<char>, Seq<char>> {
    if valid_utf8(bytes) {
        Ok(decode_utf8(bytes))
    } else {
        Err(utf8_error_text(bytes))
    }
}

/// Body of a response as text.
pub open spec fn body_text(bytes: Seq<u8>) -> Seq<char> {
    if valid_utf8(bytes) {
        decode_utf8(bytes)
    } else {
        utf8_lossy(bytes)
    }
}

/// The outcome is this.
pub open spec fn has_outcome(
    result: Result<String, HttpError>,
    outcome: Result<Seq<char>, (HttpErrorKind, Seq<char>)>,
) -> bool {
    match result {
        Ok(text) => outcome == Ok::<Seq<char>, (HttpErrorKind, Seq<char>)>(text@),
        Err(e) => outcome == Err::<Seq<char>, (HttpErrorKind, Seq<char>)>(e.spec_reason()),
    }
}

/// Text of a response, given its headers as text, or what is wrong with them,
/// and its body as text.
pub fn accept_response(headers: Result<String, String>, body: String) -> (text: Result<
    String,
    HttpError,
>)
    ensures
        has_outcome(
            text,
            text_of_response(
                match headers {
                    Ok(headers) => Ok(headers@),
                    Err(message) => Err(message@),
                },
                body@,
            ),
        ),
{
    let headers: String = match headers {
        Ok(headers) => headers,
        Err(message) => {
            return Err(HttpError { kind: HttpErrorKind::InvalidData, message });
        },
    };
    match parse_status(headers.as_str()) {
        Err(e) => Err(e),
        Ok(status) => if 200 <= status && status <= 299 {
            Ok(body)
        } else {
            let mut message: String = String::from_str("HTTP status ");
            message.append(decimal_text(status).as_str());
            Err(HttpError { kind: HttpErrorKind::Other, message })
        },
    }
}

/// Text of a response whose headers end at `end`, or why there is none.
pub open spec fn text_of_bytes(bytes: Seq<u8>, end: Option<usize>) -> Result<
    Seq<char>,
    (HttpErrorKind, Seq<char>),
> {
    match end {
        None => Err((HttpErrorKind::InvalidData, "HTTP headers incomplete"@)),
        Some(end) => text_of_response(
            headers_text(bytes.take(end as int)),
            body_text(bytes.skip(end + 4)),
        ),
    }
}

/// Takes the text out of a response: what stands behind the headers, where the
/// status is one of success.
pub fn read_response(response: &Vec<u8>) -> (text: Result<String, HttpError>)
    ensures
        exists|end: Option<usize>|
            #![trigger is_header_end(response@, end)]
            is_header_end(response@, end) && has_outcome(
                text,
                match end {
                    None => Err((HttpErrorKind::InvalidData, "HTTP headers incomplete"@)),
                    Some(end) => text_of_response(
                        headers_text(response@.take(end as int)),
                        body_text(response@.skip(end + 4)),
                    ),
                },
            ) && has_outcome(text, text_of_bytes(response@, end)),
{
    let bytes: &[u8] = response.as_slice();
    let end: Option<usize> = find_header_end(bytes);
    match end {
        None => Err(HttpError::new(HttpErrorKind::InvalidData, "HTTP headers incomplete")),
        Some(end) => {
            let len: usize = bytes.len();
            assert(end + 4 <= len);
            let head: &[u8] = slice_subrange(bytes, 0, end);
            let rest: &[u8] = slice_subrange(bytes, end + 4, len);
            proof {
                assert(head@ =~= response@.take(end as int));
                assert(rest@ =~= response@.skip(end + 4));
            }
            accept_response(text_from_utf8(head), text_from_utf8_lossy(rest))
        },
    }
}

/// The headers of a response end in one place.
pub proof fn header_end_is_unique(bytes: Seq<u8>, a: Option<usize>, b: Option<usize>)
    requires
        is_header_end(bytes, a),
        is_header_end(bytes, b),
    ensures
        a == b,
{
    if a is Some {
        assert(blank_line_at(bytes, a->0 as int));
    }
    if b is Some {
        assert(blank_line_at(bytes, b->0 as int));
    }
}

/// A response whose status is one of success gives the body that was sent, and
/// one with any other status is refused and names the status.
pub proof fn response_gives_the_body_that_was_sent(
    headers: Seq<char>,
    body: Seq<char>,
    status: u16,
)
    requires
        status_of(headers) == Ok::<u16, Seq<char>>(status),
        encode_utf8(headers).len() <= usize::MAX,
        is_header_end(
            encode_utf8(headers) + seq![13u8, 10u8, 13u8, 10u8] + encode_utf8(body),
            Some(encode_utf8(headers).len() as usize),
        ),
    ensures
        ({
            let bytes = encode_utf8(headers) + seq![13u8, 10u8, 13u8, 10u8] + encode_utf8(body);
            let end = encode_utf8(headers).len() as int;
            let outcome = text_of_response(
                headers_text(bytes.take(end)),
                body_text(bytes.skip(end + 4)),
            );
            if 200 <= status <= 299 {
                outcome == Ok::<Seq<char>, (HttpErrorKind, Seq<char>)>(body)
            } else {
                outcome == Err::<Seq<char>, (HttpErrorKind, Seq<char>)>(
                    (HttpErrorKind::Other, "HTTP status "@ + decimal(status as nat)),
                )
            }
        }),
{
    let bytes = encode_utf8(headers) + seq![13u8, 10u8, 13u8, 10u8] + encode_utf8(body);
    let end = encode_utf8(headers).len() as int;
    assert(bytes.take(end) =~= encode_utf8(headers));
    assert(bytes.skip(end + 4) =~= encode_utf8(body));
    encode_utf8_valid_utf8(headers);
    encode_utf8_valid_utf8(body);
    encode_utf8_decode_utf8(headers);
    encode_utf8_decode_utf8(body);
}

/// The headers end where carriage return and line feed, twice, stand for the
/// first time, and nowhere if they never do.
pub proof fn headers_end_at_the_first_blank_line(bytes: Seq<u8>, end: Option<usize>, i: int)
    requires
        is_header_end(bytes, end),
    ensures
        end matches Some(e) ==> e + 4 <= bytes.len() && bytes.subrange(e as int, e + 4) == seq![
            13u8,
            10u8,
            13u8,
            10u8,
        ],
        0 <= i && i + 4 <= bytes.len() && bytes.subrange(i, i + 4) == seq![13u8, 10u8, 13u8, 10u8]
            ==> end is Some && end->0 <= i,
{
    if end is Some {
        let e = end->0 as int;
        assert(blank_line_at(bytes, e));
        assert(bytes.subrange(e, e + 4) =~= seq![13u8, 10u8, 13u8, 10u8]);
    }
    if 0 <= i && i + 4 <= bytes.len() && bytes.subrange(i, i + 4) == seq![13u8, 10u8, 13u8, 10u8] {
        let part = bytes.subrange(i, i + 4);
        assert(part[0] == 13 && part[1] == 10 && part[2] == 13 && part[3] == 10);
        assert(blank_line_at(bytes, i));
    }
}

/// A response is accepted exactly with a status from two hundred to two hundred
/// and ninety-nine, and then its body is what comes of it, whatever the headers
/// say besides. With any other status the failure is of the kind for those, and
/// tells the number; headers that are no text or have no status are invalid data,
/// with the reason.
pub proof fn only_success_is_accepted(headers: Result<Seq<char>, Seq<char>>, body: Seq<char>)
    ensures
        ({
            let outcome = text_of_response(headers, body);
            &&& outcome matches Ok(text) ==> text == body
            &&& outcome is Ok <==> headers is Ok && status_of(headers->Ok_0) is Ok && 200
                <= status_of(headers->Ok_0)->Ok_0 < 300
            &&& headers is Ok && status_of(headers->Ok_0) is Ok && outcome is Err ==> {
                let message = outcome->Err_0.1;
                &&& outcome->Err_0.0 == HttpErrorKind::Other
                &&& exists|before: Seq<char>|
                    message == #[trigger] (before + decimal(
                        status_of(headers->Ok_0)->Ok_0 as nat,
                    ))
            }
            &&& headers matches Err(reason) ==> outcome == Err::<
                Seq<char>,
                (HttpErrorKind, Seq<char>),
            >((HttpErrorKind::InvalidData, reason))
            &&& headers is Ok && status_of(headers->Ok_0) is Err ==> outcome == Err::<
                Seq<char>,
                (HttpErrorKind, Seq<char>),
            >((HttpErrorKind::InvalidData, status_of(headers->Ok_0)->Err_0))
        }),
{
    let outcome = text_of_response(headers, body);
    if headers is Ok && status_of(headers->Ok_0) is Ok && outcome is Err {
        assert(outcome->Err_0.1 == "HTTP status "@ + decimal(
            status_of(headers->Ok_0)->Ok_0 as nat,
        ));
    }
}

/// Bytes without a blank line are no response: the headers are incomplete. With
/// one, what stands before the first is the headers, and what stands behind it
/// the body; a body that is text is read as that text, and headers that are text
/// as that text.
pub proof fn response_is_parted_at_the_first_blank_line(
    head: Seq<char>,
    body: Seq<char>,
    bytes: Seq<u8>,
    end: Option<usize>,
)
    requires
        is_header_end(bytes, end),
    ensures
        (forall|i: int|
            0 <= i && i + 4 <= bytes.len() ==> #[trigger] bytes.subrange(i, i + 4) != seq![
                13u8,
                10u8,
                13u8,
                10u8,
            ]) ==> text_of_bytes(bytes, end) is Err && text_of_bytes(bytes, end)->Err_0.0
            == HttpErrorKind::InvalidData,
        bytes == encode_utf8(head) + seq![13u8, 10u8, 13u8, 10u8] + encode_utf8(body) && (forall|
            i: int,
        |
            0 <= i < encode_utf8(head).len() ==> #[trigger] bytes.subrange(i, i + 4) != seq![
                13u8,
                10u8,
                13u8,
                10u8,
            ]) ==> text_of_bytes(bytes, end) == text_of_response(Ok(head), body),
{
    headers_end_at_the_first_blank_line(bytes, end, encode_utf8(head).len() as int);
    if bytes == encode_utf8(head) + seq![13u8, 10u8, 13u8, 10u8] + encode_utf8(body) && (forall|
        i: int,
    |
        0 <= i < encode_utf8(head).len() ==> #[trigger] bytes.subrange(i, i + 4) != seq![
            13u8,
            10u8,
            13u8,
            10u8,
        ]) {
        let n = encode_utf8(head).len() as int;
        assert(bytes.subrange(n, n + 4) =~= seq![13u8, 10u8, 13u8, 10u8]);
        assert(end is Some && end->0 <= n);
        assert(end->0 == n) by {
            if end->0 < n {
                assert(bytes.subrange(end->0 as int, end->0 + 4) != seq![13u8, 10u8, 13u8, 10u8]);
            }
        }
        assert(bytes.take(n) =~= encode_utf8(head));
        assert(bytes.skip(n + 4) =~= encode_utf8(body));
        encode_utf8_valid_utf8(head);
        encode_utf8_valid_utf8(body);
        encode_utf8_decode_utf8(head);
        encode_utf8_decode_utf8(body);
    }
}

/// A result has an outcome exactly if both are a text, and the same, or both a
/// failure, with the same kind and message.
pub proof fn outcome_is_all_of_the_result(
    result: Result<String, HttpError>,
    outcome: Result<Seq<char>, (HttpErrorKind, Seq<char>)>,
)
    ensures
        has_outcome(result, outcome) <==> match (result, outcome) {
            (Ok(text), Ok(expected)) => text@ == expected,
            (Err(e), Err((kind, message))) => e.kind == kind && e.message@ == message,
            _ => false,
        },
{
}

} // verus!
