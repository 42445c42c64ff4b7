//! Pieces of text.

use vstd::prelude::*;
use vstd::string::StringExecFns;

verus! {

/// Character of a decimal digit.
pub open spec fn digit_char(digit: nat) -> char {
    ('0' as int + digit) as char
}

/// Decimal digits of a number.
pub open spec fn decimal(n: nat) -> Seq<char>
    decreases n,
{
    if n < 10 {
        seq![digit_char(n)]
    } else {
        decimal(n / 10).push(digit_char(n % 10))
    }
}

/// Text of a decimal digit.
fn digit_text(digit: u16) -> (text: &'static str)
    requires
        digit < 10,
    ensures
        text@ == seq![digit_char(digit as nat)],
{
    proof {
        reveal_strlit("0");
        reveal_strlit("1");
        reveal_strlit("2");
        reveal_strlit("3");
        reveal_strlit("4");
        reveal_strlit("5");
        reveal_strlit("6");
        reveal_strlit("7");
        reveal_strlit("8");
        reveal_strlit("9");
    }
    let text: &'static str = match digit {
        0 => "0",
        1 => "1",
        2 => "2",
        3 => "3",
        4 => "4",
        5 => "5",
        6 => "6",
        7 => "7",
        8 => "8",
        _ => "9",
    };
    assert(text@ =~= seq![digit_char(digit as nat)]);
    text
}

/// Decimal digits of a number.
pub fn decimal_text(n: u16) -> (text: String)
    ensures
        text@ == decimal(n as nat),
    decreases n,
{
    if n < 10 {
        String::from_str(digit_text(n))
    } else {
        let mut text: String = decimal_text(n / 10);
        text.append(digit_text(n % 10));
        proof {
            assert(text@ =~= decimal(n as nat));
        }
        text
    }
}

/// A host with its port.
pub open spec fn host_and_port(host: Seq<char>, port: u16) -> Seq<char> {
    host + ":"@ + decimal(port as nat)
}

/// A host with its port.
pub fn host_and_port_text(host: &str, port: u16) -> (text: String)
    ensures
        text@ == host_and_port(host@, port),
{
    let mut text: String = String::from_str(host);
    text.append(":");
    text.append(decimal_text(port).as_str());
    text
}

/// Host header of a request: the port is left out where it is the usual one.
pub open spec fn spec_host_header(host: Seq<char>, port: u16, usual_port: u16) -> Seq<char> {
    if port == usual_port {
        host
    } else {
        host_and_port(host, port)
    }
}

/// Host header of a request: the port is left out where it is the usual one.
pub fn host_header(host: &str, port: u16, usual_port: u16) -> (text: String)
    ensures
        text@ == spec_host_header(host@, port, usual_port),
{
    if port == usual_port {
        String::from_str(host)
    } else {
        host_and_port_text(host, port)
    }
}

/// Value of a character as a decimal digit.
pub open spec fn digit_value(c: char) -> Option<nat> {
    if '0' <= c && c <= '9' {
        Some((c as int - '0' as int) as nat)
    } else {
        None
    }
}

/// Decimal digits are digits, the last tells the number of units and the rest
/// that of tens, and no number but zero begins with a zero.
pub proof fn decimal_has_no_leading_zero(n: nat, k: int)
    requires
        0 <= k < decimal(n).len(),
    ensures
        '0' <= decimal(n)[k] <= '9',
        n > 0 ==> decimal(n)[0] != '0',
        decimal(n).last() as int - '0' as int == n % 10,
        n >= 10 ==> decimal(n).drop_last() == decimal(n / 10),
        n < 10 ==> decimal(n).len() == 1,
    decreases n,
{
    if n >= 10 {
        let tens = decimal(n / 10);
        assert(tens.len() > 0) by {
            lemma_decimal_not_empty(n / 10);
        }
        assert(decimal(n).drop_last() =~= tens);
        decimal_has_no_leading_zero(n / 10, if k < tens.len() {
            k
        } else {
            0
        });
        assert(decimal(n)[0] == tens[0]);
    }
}

proof fn lemma_decimal_not_empty(n: nat)
    ensures
        decimal(n).len() > 0,
{
}

/// A host header begins with the host. It ends there exactly if the port is the
/// usual one; otherwise a colon and the digits of the port follow.
pub proof fn host_header_names_an_unusual_port(host: Seq<char>, port: u16, usual_port: u16)
    ensures
        ({
            let header = spec_host_header(host, port, usual_port);
            let n = host.len() as int;
            &&& header.len() >= n
            &&& header.take(n) == host
            &&& port == usual_port <==> header.len() == n
            &&& port != usual_port ==> header[n] == ':' && header.skip(n + 1) == decimal(
                port as nat,
            )
        }),
{
    reveal_strlit(":");
    let header = spec_host_header(host, port, usual_port);
    let n = host.len() as int;
    assert(header.take(n) =~= host);
    if port != usual_port {
        lemma_decimal_not_empty(port as nat);
        assert(header.skip(n + 1) =~= decimal(port as nat));
    }
}

} // verus!
