//! Status line of a response.

use crate::http::response::{HttpError, HttpErrorKind};
use crate::http::text::{decimal, digit_char, digit_value};
use vstd::prelude::*;
use vstd::string::{StrSliceExecFns, StringExecFns};

verus! {

/// White space, as Unicode has it.
pub open spec fn is_space(c: char) -> bool {
    ||| '\u{9}' <= c && c <= '\u{d}'
    ||| c == '\u{20}'
    ||| c == '\u{85}'
    ||| c == '\u{a0}'
    ||| c == '\u{1680}'
    ||| '\u{2000}' <= c && c <= '\u{200a}'
    ||| c == '\u{2028}'
    ||| c == '\u{2029}'
    ||| c == '\u{202f}'
    ||| c == '\u{205f}'
    ||| c == '\u{3000}'
}

/// Whether the character is white space.
fn check_space(c: char) -> (space: bool)
    ensures
        space == is_space(c),
{
    ('\u{9}' <= c && c <= '\u{d}') || c == '\u{20}' || c == '\u{85}' || c == '\u{a0}' || c
        == '\u{1680}' || ('\u{2000}' <= c && c <= '\u{200a}') || c == '\u{2028}' || c == '\u{2029}'
        || c == '\u{202f}' || c == '\u{205f}' || c == '\u{3000}'
}

/// End of the line that begins at `i`.
pub open spec fn line_end(s: Seq<char>, i: int) -> int
    decreases s.len() - i,
{
    if i >= s.len() || s[i] == '\n' {
        i
    } else {
        line_end(s, i + 1)
    }
}

/// The first line.
pub open spec fn first_line(s: Seq<char>) -> Seq<char> {
    s.take(line_end(s, 0))
}

/// First place from `i` on that is not white space.
pub open spec fn space_end(s: Seq<char>, i: int) -> int
    decreases s.len() - i,
{
    if i >= s.len() || !is_space(s[i]) {
        i
    } else {
        space_end(s, i + 1)
    }
}

/// First place from `i` on that is white space.
pub open spec fn word_end(s: Seq<char>, i: int) -> int
    decreases s.len() - i,
{
    if i >= s.len() || is_space(s[i]) {
        i
    } else {
        word_end(s, i + 1)
    }
}

/// The second word: words are what stands between white space.
pub open spec fn second_word(s: Seq<char>) -> Option<Seq<char>> {
    let first = space_end(s, 0);
    let second = space_end(s, word_end(s, first));
    if second < s.len() {
        Some(s.subrange(second, word_end(s, second)))
    } else {
        None
    }
}

/// Why a word is no number.
#[derive(Clone, Copy, Debug, PartialEq, Eq, Structural)]
pub enum NumberError {
    InvalidDigit,
    TooLarge,
}

impl NumberError {
    /// The reason in words.
    pub open spec fn spec_message(self) -> Seq<char> {
        match self {
            NumberError::InvalidDigit => "invalid digit found in string"@,
            NumberError::TooLarge => "number too large to fit in target type"@,
        }
    }

    /// The reason in words.
    pub fn message(&self) -> (text: String)
        ensures
            text@ == self.spec_message(),
    {
        match self {
            NumberError::InvalidDigit => String::from_str("invalid digit found in string"),
            NumberError::TooLarge => String::from_str("number too large to fit in target type"),
        }
    }
}

/// Number written with these digits, read from the left: the first place at
/// which it goes wrong decides.
pub open spec fn number_of_digits(s: Seq<char>) -> Result<u16, NumberError>
    decreases s.len(),
{
    if s.len() == 0 {
        Ok(0)
    } else {
        match number_of_digits(s.drop_last()) {
            Err(e) => Err(e),
            Ok(value) => match digit_value(s.last()) {
                None => Err(NumberError::InvalidDigit),
                Some(digit) => if value * 10 + digit > u16::MAX {
                    Err(NumberError::TooLarge)
                } else {
                    Ok((value * 10 + digit) as u16)
                },
            },
        }
    }
}

/// Number that a word stands for. It may begin with a plus sign.
pub open spec fn number_of_word(word: Seq<char>) -> Result<u16, NumberError> {
    if word.len() > 0 && word[0] == '+' {
        if word.len() == 1 {
            Err(NumberError::InvalidDigit)
        } else {
            number_of_digits(word.skip(1))
        }
    } else {
        number_of_digits(word)
    }
}

/// Status of a response with these headers, or why it has none.
pub open spec fn status_of(headers: Seq<char>) -> Result<u16, Seq<char>> {
    match second_word(first_line(headers)) {
        None => Err("HTTP status missing"@),
        Some(word) => match number_of_word(word) {
            Ok(status) => Ok(status),
            Err(e) => Err(e.spec_message()),
        },
    }
}

/// Ends lie within the text, and white space ends at what is none.
proof fn lemma_ends(s: Seq<char>, i: int)
    requires
        0 <= i <= s.len(),
    ensures
        i <= line_end(s, i) <= s.len(),
        i <= space_end(s, i) <= s.len(),
        space_end(s, i) < s.len() ==> !is_space(s[space_end(s, i)]),
        i <= word_end(s, i) <= s.len(),
    decreases s.len() - i,
{
    if i < s.len() {
        lemma_ends(s, i + 1);
    }
}

fn skip_space(s: &str, from: usize, end: usize) -> (at: usize)
    requires
        from <= end <= s@.len(),
    ensures
        at == space_end(s@.take(end as int), from as int),
        from <= at <= end,
{
    let ghost line = s@.take(end as int);
    let mut at: usize = from;
    while at < end && check_space(s.get_char(at))
        invariant
            from <= at <= end <= s@.len(),
            line == s@.take(end as int),
            space_end(line, from as int) == space_end(line, at as int),
        decreases end - at,
    {
        assert(line[at as int] == s@[at as int]);
        at = at + 1;
    }
    at
}

fn skip_word(s: &str, from: usize, end: usize) -> (at: usize)
    requires
        from <= end <= s@.len(),
    ensures
        at == word_end(s@.take(end as int), from as int),
        from <= at <= end,
{
    let ghost line = s@.take(end as int);
    let mut at: usize = from;
    while at < end && !check_space(s.get_char(at))
        invariant
            from <= at <= end <= s@.len(),
            line == s@.take(end as int),
            word_end(line, from as int) == word_end(line, at as int),
        decreases end - at,
    {
        assert(line[at as int] == s@[at as int]);
        at = at + 1;
    }
    at
}

fn skip_line(s: &str) -> (at: usize)
    ensures
        at == line_end(s@, 0),
        at <= s@.len(),
{
    let end: usize = s.unicode_len();
    let mut at: usize = 0;
    while at < end && s.get_char(at) != '\n'
        invariant
            at <= end == s@.len(),
            line_end(s@, 0) == line_end(s@, at as int),
        decreases end - at,
    {
        at = at + 1;
    }
    at
}

/// Number that the word from `from` to `end` stands for.
fn parse_number(s: &str, from: usize, end: usize) -> (number: Result<u16, NumberError>)
    requires
        from < end <= s@.len(),
    ensures
        number == number_of_word(s@.subrange(from as int, end as int)),
{
    let ghost word = s@.subrange(from as int, end as int);
    let signed: bool = s.get_char(from) == '+';
    if signed && end - from == 1 {
        return Err(NumberError::InvalidDigit);
    }
    let start: usize = if signed {
        from + 1
    } else {
        from
    };
    let ghost digits = s@.subrange(start as int, end as int);
    proof {
        if signed {
            assert(word.skip(1) =~= digits);
        }
    }
    let mut value: u16 = 0;
    let mut at: usize = start;
    proof {
        assert(digits.take(0) =~= Seq::<char>::empty());
    }
    while at < end
        invariant
            start <= at <= end <= s@.len(),
            digits == s@.subrange(start as int, end as int),
            number_of_digits(digits.take(at - start)) == Ok::<u16, NumberError>(value),
            number_of_word(word) == number_of_digits(digits),
            word == s@.subrange(from as int, end as int),
        decreases end - at,
    {
        let c: char = s.get_char(at);
        proof {
            let next = digits.take(at + 1 - start);
            assert(next.drop_last() =~= digits.take(at - start));
            assert(next.last() == c);
        }
        if c < '0' || c > '9' {
            proof {
                lemma_trouble_stays(digits, at + 1 - start);
            }
            return Err(NumberError::InvalidDigit);
        }
        let wide: u32 = value as u32 * 10 + (c as u32 - '0' as u32);
        if wide > u16::MAX as u32 {
            proof {
                lemma_trouble_stays(digits, at + 1 - start);
            }
            return Err(NumberError::TooLarge);
        }
        value = wide as u16;
        at = at + 1;
    }
    proof {
        assert(digits.take(at - start) =~= digits);
    }
    Ok(value)
}

/// What goes wrong in the first digits goes wrong in all.
proof fn lemma_trouble_stays(s: Seq<char>, n: int)
    requires
        0 <= n <= s.len(),
        number_of_digits(s.take(n)) is Err,
    ensures
        number_of_digits(s) == number_of_digits(s.take(n)),
    decreases s.len(),
{
    if n == s.len() {
        assert(s.take(n) =~= s);
    } else {
        let init = s.drop_last();
        assert(init.take(n) =~= s.take(n));
        lemma_trouble_stays(init, n);
    }
}

/// Reads the status of a response from its headers: the second word of the
/// first line.
pub fn parse_status(headers: &str) -> (status: Result<u16, HttpError>)
    ensures
        match status {
            Ok(code) => status_of(headers@) == Ok::<u16, Seq<char>>(code),
            Err(e) => e.kind == HttpErrorKind::InvalidData && status_of(headers@) == Err::<
                u16,
                Seq<char>,
            >(e.message@),
        },
{
    let end: usize = skip_line(headers);
    let ghost line = first_line(headers@);
    let first: usize = skip_space(headers, 0, end);
    let gap: usize = skip_word(headers, first, end);
    let second: usize = skip_space(headers, gap, end);
    if second >= end {
        return Err(HttpError::new(HttpErrorKind::InvalidData, "HTTP status missing"));
    }
    let stop: usize = skip_word(headers, second, end);
    proof {
        lemma_ends(line, gap as int);
        lemma_ends(line, second + 1);
        assert(stop > second);
        assert(headers@.subrange(second as int, stop as int) =~= line.subrange(
            second as int,
            stop as int,
        ));
    }
    match parse_number(headers, second, stop) {
        Ok(code) => Ok(code),
        Err(e) => Err(HttpError { kind: HttpErrorKind::InvalidData, message: e.message() }),
    }
}

proof fn lemma_decimal_number(n: nat)
    requires
        n <= u16::MAX,
    ensures
        decimal(n).len() > 0,
        digit_value(decimal(n)[0]) is Some,
        number_of_digits(decimal(n)) == Ok::<u16, NumberError>(n as u16),
    decreases n,
{
    reveal_with_fuel(number_of_digits, 2);
    if n < 10 {
        assert(decimal(n).drop_last() =~= Seq::<char>::empty());
        assert(decimal(n).last() == digit_char(n));
    } else {
        lemma_decimal_number(n / 10);
        let before = decimal(n / 10);
        assert(decimal(n).drop_last() =~= before);
        assert(decimal(n).last() == digit_char(n % 10));
        assert(decimal(n)[0] == before[0]);
    }
}

/// A number in decimal digits is read as that number.
pub proof fn decimal_is_read_back(n: u16)
    ensures
        number_of_word(decimal(n as nat)) == Ok::<u16, NumberError>(n),
{
    lemma_decimal_number(n as nat);
}

/// The end of a line is the first line feed from where it begins, or the end of
/// the text. White space ends at the first place without it, and a word at the
/// first place with it, or at the end of the text.
pub proof fn ends_are_the_first_of_their_kind(s: Seq<char>, i: int, j: int)
    requires
        0 <= i <= j <= s.len(),
    ensures
        line_end(s, i) == j <==> (j == s.len() || s[j] == '\n') && forall|k: int|
            i <= k < j ==> #[trigger] s[k] != '\n',
        space_end(s, i) == j <==> (j == s.len() || !is_space(s[j])) && forall|k: int|
            i <= k < j ==> is_space(#[trigger] s[k]),
        word_end(s, i) == j <==> (j == s.len() || is_space(s[j])) && forall|k: int|
            i <= k < j ==> !is_space(#[trigger] s[k]),
    decreases s.len() - i,
{
    lemma_ends(s, i);
    if i < s.len() {
        lemma_ends(s, i + 1);
        if i < j {
            ends_are_the_first_of_their_kind(s, i + 1, j);
        }
    }
}

/// The status is what the second word of the first line says: the word that
/// stands behind a first one and white space, up to white space or the end. What
/// comes behind it has no part in it. A first line without a second word gives no
/// status.
pub proof fn status_is_the_second_word(
    lead: Seq<char>,
    first: Seq<char>,
    gap: Seq<char>,
    word: Seq<char>,
    rest: Seq<char>,
)
    requires
        forall|k: int| 0 <= k < lead.len() ==> is_space(#[trigger] lead[k]) && lead[k] != '\n',
        forall|k: int| 0 <= k < first.len() ==> !is_space(#[trigger] first[k]),
        forall|k: int| 0 <= k < gap.len() ==> is_space(#[trigger] gap[k]) && gap[k] != '\n',
        forall|k: int| 0 <= k < word.len() ==> !is_space(#[trigger] word[k]),
        first.len() > 0,
        gap.len() > 0,
        rest.len() > 0 ==> is_space(rest[0]),
        word.len() == 0 && rest.len() > 0 ==> rest[0] == '\n',
    ensures
        ({
            let headers = lead + first + gap + word + rest;
            &&& word.len() == 0 ==> status_of(headers) == Err::<u16, Seq<char>>(
                "HTTP status missing"@,
            )
            &&& word.len() > 0 && number_of_word(word) is Ok ==> status_of(headers) == Ok::<
                u16,
                Seq<char>,
            >(number_of_word(word)->Ok_0)
            &&& word.len() > 0 && number_of_word(word) is Err ==> status_of(headers) == Err::<
                u16,
                Seq<char>,
            >(number_of_word(word)->Err_0.spec_message())
        }),
{
    let s = lead + first + gap + word + rest;
    let a = lead.len() as int;
    let b = a + first.len();
    let c = b + gap.len();
    let d = c + word.len();
    assert(!is_space('x'));
    assert(is_space('\n'));
    assert(s.len() == d + rest.len());
    assert forall|k: int| 0 <= k < d implies #[trigger] s[k] != '\n' by {
        if k < a {
            assert(s[k] == lead[k]);
        } else if k < b {
            assert(s[k] == first[k - a]);
        } else if k < c {
            assert(s[k] == gap[k - b]);
        } else {
            assert(s[k] == word[k - c]);
        }
    }
    let e = line_end(s, 0);
    lemma_ends(s, 0);
    ends_are_the_first_of_their_kind(s, 0, e);
    assert(e >= d) by {
        if e < d {
            assert(s[e] == '\n');
        }
    }
    let line = first_line(s);
    assert(line.len() == e);
    assert forall|k: int| 0 <= k < a implies is_space(#[trigger] line[k]) by {
        assert(line[k] == lead[k]);
    }
    assert forall|k: int| a <= k < b implies !is_space(#[trigger] line[k]) by {
        assert(line[k] == first[k - a]);
    }
    assert forall|k: int| b <= k < c implies is_space(#[trigger] line[k]) by {
        assert(line[k] == gap[k - b]);
    }
    assert forall|k: int| c <= k < d implies !is_space(#[trigger] line[k]) by {
        assert(line[k] == word[k - c]);
    }
    assert(!is_space(line[a]));
    assert(is_space(line[b]));
    ends_are_the_first_of_their_kind(line, 0, a);
    ends_are_the_first_of_their_kind(line, a, b);
    if word.len() > 0 {
        assert(!is_space(line[c]));
        if d < e {
            assert(line[d] == rest[0]);
        }
        ends_are_the_first_of_their_kind(line, b, c);
        ends_are_the_first_of_their_kind(line, c, d);
        assert(line.subrange(c, d) =~= word);
    } else {
        if rest.len() > 0 {
            assert(s[d] == rest[0]);
            if e > d {
                assert(s[d] != '\n');
            }
        }
        assert(e == d);
        ends_are_the_first_of_their_kind(line, b, c);
    }
}

/// Number that digits stand for, however large.
pub open spec fn value_of_digits(s: Seq<char>) -> nat
    decreases s.len(),
{
    if s.len() == 0 {
        0
    } else {
        value_of_digits(s.drop_last()) * 10 + (s.last() as nat - '0' as nat) as nat
    }
}

/// A word of digits stands for their number wherever that fits, with leading
/// zeros or without, and is too large otherwise. A word with anything else in it,
/// but for a plus sign at its beginning, stands for none.
pub proof fn word_of_digits_is_a_number(s: Seq<char>)
    ensures
        (forall|k: int| 0 <= k < s.len() ==> '0' <= #[trigger] s[k] <= '9') && value_of_digits(s)
            <= u16::MAX ==> number_of_digits(s) == Ok::<u16, NumberError>(
            value_of_digits(s) as u16,
        ),
        (forall|k: int| 0 <= k < s.len() ==> '0' <= #[trigger] s[k] <= '9') && value_of_digits(s)
            > u16::MAX ==> number_of_digits(s) == Err::<u16, NumberError>(NumberError::TooLarge),
        !(forall|k: int| 0 <= k < s.len() ==> '0' <= #[trigger] s[k] <= '9') ==> number_of_digits(s)
            is Err,
        number_of_word(seq!['+']) == Err::<u16, NumberError>(NumberError::InvalidDigit),
        s.len() > 0 && s[0] != '+' ==> number_of_word(s) == number_of_digits(s),
        s.len() > 0 ==> number_of_word(seq!['+'] + s) == number_of_digits(s),
    decreases s.len(),
{
    if s.len() > 0 {
        let init = s.drop_last();
        word_of_digits_is_a_number(init);
        let last = s[s.len() - 1];
        assert(s.last() == last);
        if forall|k: int| 0 <= k < s.len() ==> '0' <= #[trigger] s[k] <= '9' {
            assert forall|k: int| 0 <= k < init.len() implies '0' <= #[trigger] init[k] <= '9' by {
                assert(init[k] == s[k]);
            }
            assert('0' <= s[s.len() - 1] <= '9');
        } else if '0' <= last <= '9' {
            let k = choose|k: int| 0 <= k < s.len() && !('0' <= #[trigger] s[k] <= '9');
            assert(init[k] == s[k]);
        }
        assert((seq!['+'] + s).skip(1) =~= s);
    }
}

/// What goes wrong first is what is told: a character that is no digit behind
/// digits whose number fits.
pub proof fn first_trouble_is_told(digits: Seq<char>, c: char, rest: Seq<char>)
    requires
        forall|k: int| 0 <= k < digits.len() ==> '0' <= #[trigger] digits[k] <= '9',
        value_of_digits(digits) <= u16::MAX,
        c < '0' || c > '9',
    ensures
        number_of_digits(digits + seq![c] + rest) == Err::<u16, NumberError>(
            NumberError::InvalidDigit,
        ),
{
    let s = digits + seq![c] + rest;
    let n = digits.len() as int + 1;
    word_of_digits_is_a_number(digits);
    assert(s.take(n) =~= digits.push(c));
    assert(digits.push(c).drop_last() =~= digits);
    assert(digits.push(c).last() == c);
    lemma_trouble_stays(s, n);
}

/// White space is what Unicode calls so, by number: the controls from tab to
/// carriage return, the space, the next line, and the wider and narrower spaces
/// and separators.
pub proof fn white_space_is_that_of_unicode(c: char)
    ensures
        is_space(c) <==> {
            let n = c as int;
            ||| 9 <= n <= 13
            ||| n == 32 || n == 0x85 || n == 0xa0 || n == 0x1680
            ||| 0x2000 <= n <= 0x200a
            ||| n == 0x2028 || n == 0x2029 || n == 0x202f || n == 0x205f || n == 0x3000
        },
{
}

} // verus!
