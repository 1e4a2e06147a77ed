//! Text: ASCII, UTF-8, decimal numbers and percent-encoding.
use vstd::prelude::*;
use vstd::string::*;
use vstd::utf8::{decode_utf8, valid_utf8};

verus! {

/// The bytes of a text in ASCII.
pub open spec fn ascii(text: Seq<char>) -> Seq<u8> {
    Seq::new(text.len(), |i: int| text[i] as u8)
}

/// The bytes of a text in ASCII.
pub(crate) fn ascii_bytes<'a>(text: &'a str) -> (r: &'a [u8])
    requires
        is_ascii(text),
    ensures
        r@ == ascii(text@),
{
    broadcast use vstd::string::is_ascii_spec_bytes;

    let bytes: &'a [u8] = text.as_bytes();
    assert(bytes@ =~= ascii(text@));
    bytes
}

/// What `String::from_utf8_lossy` makes of a byte string: a text, in which a replacement character
/// stands for whatever is no UTF-8.
pub uninterp spec fn utf8_lossy(bytes: Seq<u8>) -> Seq<char>;

/// `String::from_utf8_lossy`: the text depends on nothing but the bytes, and valid UTF-8 is kept as
/// it is.
#[verifier::external_body]
pub(crate) fn lossy_text(bytes: &[u8]) -> (r: String)
    ensures
        r@ == utf8_lossy(bytes@),
        valid_utf8(bytes@) ==> r@ == decode_utf8(bytes@),
{
    String::from_utf8_lossy(bytes).into_owned()
}

/// The decimal digit for a number below ten.
pub open spec fn digit(n: int) -> char {
    (48 + n) as char
}

/// A number in decimal digits, without leading zeros.
pub open spec fn decimal(n: nat) -> Seq<char>
    decreases n,
{
    if n < 10 {
        seq![digit(n as int)]
    } else {
        decimal(n / 10).push(digit((n % 10) as int))
    }
}

fn digit_text(n: u64) -> (r: &'static str)
    requires
        n < 10,
    ensures
        r@ == seq![digit(n as int)],
{
    proof {
        reveal_strlit("0");
        reveal_strlit("1");
        reveal_strlit("2");
        reveal_strlit("3");
        reveal_strlit("4");
        reveal_strlit("5");
        reveal_strlit("6");
        reveal_strlit("7");
        reveal_strlit("8");
        reveal_strlit("9");
    }
    let text: &'static str = match n {
        0 => "0",
        1 => "1",
        2 => "2",
        3 => "3",
        4 => "4",
        5 => "5",
        6 => "6",
        7 => "7",
        8 => "8",
        _ => "9",
    };
    assert(text@ =~= seq![digit(n as int)]);
    text
}

/// Writes a number in decimal digits behind a text.
pub(crate) fn push_decimal(out: &mut String, n: u64)
    ensures
        final(out)@ == old(out)@ + decimal(n as nat),
    decreases n,
{
    if n >= 10 {
        push_decimal(out, n / 10);
    }
    out.append(digit_text(n % 10));
    assert(out@ =~= old(out)@ + decimal(n as nat));
}

/// Whether a byte stands for itself in percent-encoding: it is an ASCII letter or digit, or one of
/// `-`, `.`, `_` and `~`.
pub open spec fn unreserved(byte: u8) -> bool {
    ||| 48 <= byte <= 57
    ||| 65 <= byte <= 90
    ||| 97 <= byte <= 122
    ||| byte == 45
    ||| byte == 46
    ||| byte == 95
    ||| byte == 126
}

/// The hexadecimal digit for a number below sixteen, in upper case.
pub open spec fn hex_digit(n: int) -> char {
    if n < 10 {
        (48 + n) as char
    } else {
        (55 + n) as char
    }
}

/// A byte string in percent-encoding: every byte that does not stand for itself is a percent sign
/// and two hexadecimal digits.
pub open spec fn percent_encoded(data: Seq<u8>) -> Seq<char>
    decreases data.len(),
{
    if data.len() == 0 {
        Seq::empty()
    } else {
        percent_encoded(data.drop_last()) + if unreserved(data.last()) {
            seq![data.last() as char]
        } else {
            seq!['%', hex_digit(data.last() as int / 16), hex_digit(data.last() as int % 16)]
        }
    }
}

/// `urlencoding::encode_binary`: the byte string in percent-encoding.
#[verifier::external_body]
pub(crate) fn encode_binary(data: &[u8]) -> (r: String)
    ensures
        r@ == percent_encoded(data@),
{
    urlencoding::encode_binary(data).into_owned()
}

/// Whether a text starts with a prefix.
pub open spec fn has_prefix(text: Seq<char>, prefix: Seq<char>) -> bool {
    prefix.len() <= text.len() && text.take(prefix.len() as int) == prefix
}

/// Whether a text starts with a prefix.
pub(crate) fn starts_with(text: &str, prefix: &str) -> (r: bool)
    ensures
        r == has_prefix(text@, prefix@),
{
    let n: usize = prefix.unicode_len();
    if text.unicode_len() < n {
        return false;
    }
    let mut i: usize = 0;
    while i < n
        invariant
            i <= n,
            n == prefix@.len(),
            n <= text@.len(),
            forall|k: int| 0 <= k < i ==> text@[k] == prefix@[k],
        decreases n - i,
    {
        if text.get_char(i) != prefix.get_char(i) {
            assert(text@.take(n as int)[i as int] != prefix@[i as int]);
            return false;
        }
        i += 1;
    }
    assert(text@.take(n as int) =~= prefix@);
    true
}

/// A text without a prefix that may stand in front of it, more than once.
pub open spec fn without_prefix(text: Seq<char>, prefix: Seq<char>) -> Seq<char>
    decreases text.len(),
{
    if prefix.len() > 0 && has_prefix(text, prefix) {
        without_prefix(text.skip(prefix.len() as int), prefix)
    } else {
        text
    }
}

/// A text without a prefix that may stand in front of it, more than once.
pub(crate) fn trim_start<'a>(text: &'a str, prefix: &str) -> (r: &'a str)
    requires
        prefix@.len() > 0,
    ensures
        r@ == without_prefix(text@, prefix@),
    decreases text@.len(),
{
    if starts_with(text, prefix) {
        let rest: &'a str = text.substring_char(prefix.unicode_len(), text.unicode_len());
        assert(rest@ =~= text@.skip(prefix@.len() as int));
        trim_start(rest, prefix)
    } else {
        text
    }
}

/// The part of a text, from `from` on, in front of the first occurrence of a character.
pub open spec fn part_before(text: Seq<char>, stop: char, from: int) -> Seq<char>
    decreases text.len() - from,
{
    if from < 0 || from >= text.len() {
        text
    } else if text[from] == stop {
        text.take(from)
    } else {
        part_before(text, stop, from + 1)
    }
}

/// The part of a text in front of the first occurrence of a character.
pub(crate) fn before<'a>(text: &'a str, stop: char) -> (r: &'a str)
    ensures
        r@ == part_before(text@, stop, 0),
{
    let n: usize = text.unicode_len();
    let mut i: usize = 0;
    while i < n
        invariant
            i <= n,
            n == text@.len(),
            part_before(text@, stop, 0) == part_before(text@, stop, i as int),
        decreases n - i,
    {
        if text.get_char(i) == stop {
            let part: &'a str = text.substring_char(0, i);
            assert(part@ =~= text@.take(i as int));
            return part;
        }
        i += 1;
    }
    text
}

/// The number that a text of decimal digits stands for.
pub open spec fn value_of(digits: Seq<char>) -> int
    decreases digits.len(),
{
    if digits.len() == 0 {
        0
    } else {
        value_of(digits.drop_last()) * 10 + (digits.last() as int - '0' as int)
    }
}

/// A number is written in decimal digits that stand for it, without a leading zero unless it is
/// zero.
pub proof fn law_digits_stand_for_the_number(n: nat)
    ensures
        value_of(decimal(n)) == n,
        decimal(n).len() > 0,
        forall|i: int| 0 <= i < decimal(n).len() ==> '0' <= #[trigger] decimal(n)[i] <= '9',
        n > 0 ==> decimal(n)[0] != '0',
        n < 10 ==> decimal(n).len() == 1,
    decreases n,
{
    if n < 10 {
        reveal_with_fuel(value_of, 2);
        assert(decimal(n).drop_last() =~= Seq::empty());
    } else {
        law_digits_stand_for_the_number(n / 10);
        assert(decimal(n).drop_last() =~= decimal(n / 10));
    }
}

/// The number that a hexadecimal digit in upper case stands for.
pub open spec fn hex_value(c: char) -> int {
    if c <= '9' {
        c as int - '0' as int
    } else {
        c as int - 'A' as int + 10
    }
}

/// The bytes that a text in percent-encoding stands for.
pub open spec fn percent_decoded(text: Seq<char>) -> Seq<u8>
    decreases text.len(),
{
    if text.len() == 0 {
        Seq::empty()
    } else if text[0] == '%' && text.len() >= 3 {
        seq![(16 * hex_value(text[1]) + hex_value(text[2])) as u8] + percent_decoded(text.skip(3))
    } else {
        seq![text[0] as u8] + percent_decoded(text.skip(1))
    }
}

/// Byte strings are percent-encoded byte by byte: what two of them make together is what each makes
/// for itself.
pub proof fn law_percent_encoding_is_bytewise(a: Seq<u8>, b: Seq<u8>)
    ensures
        percent_encoded(a + b) == percent_encoded(a) + percent_encoded(b),
    decreases b.len(),
{
    if b.len() == 0 {
        assert(a + b =~= a);
        assert(percent_encoded(b) =~= Seq::empty());
        assert(percent_encoded(a) + percent_encoded(b) =~= percent_encoded(a));
    } else {
        law_percent_encoding_is_bytewise(a, b.drop_last());
        assert((a + b).drop_last() =~= a + b.drop_last());
        assert((a + b).last() == b.last());
        assert(percent_encoded(a + b) =~= percent_encoded(a) + percent_encoded(b));
    }
}

/// Whether a character may stand in percent-encoding: it is an ASCII letter or digit, or one of `-`,
/// `.`, `_`, `~` and `%`.
pub open spec fn url_char(c: char) -> bool {
    ||| '0' <= c <= '9'
    ||| 'A' <= c <= 'Z'
    ||| 'a' <= c <= 'z'
    ||| c == '-'
    ||| c == '.'
    ||| c == '_'
    ||| c == '~'
    ||| c == '%'
}

/// What was percent-encoded is read back as it was; and in it there is no character that means
/// something else in a URL.
pub proof fn law_percent_encoding_is_read_back(data: Seq<u8>)
    ensures
        percent_decoded(percent_encoded(data)) == data,
        forall|i: int|
            0 <= i < percent_encoded(data).len() ==> url_char(#[trigger] percent_encoded(data)[i]),
    decreases data.len(),
{
    reveal_with_fuel(percent_encoded, 2);
    if data.len() > 0 {
        let first = seq![data[0]];
        let rest = data.skip(1);
        assert(data =~= first + rest);
        law_percent_encoding_is_bytewise(first, rest);
        law_percent_encoding_is_read_back(rest);
        assert(first.drop_last() =~= Seq::empty());
        let text = percent_encoded(data);
        let head = percent_encoded(first);
        if unreserved(data[0]) {
            assert(head =~= seq![data[0] as char]);
            assert(text.skip(1) =~= percent_encoded(rest));
            assert(text[0] != '%');
            assert(text[0] as u8 == data[0]);
        } else {
            let high = hex_digit(data[0] as int / 16);
            let low = hex_digit(data[0] as int % 16);
            assert(head =~= seq!['%', high, low]);
            assert(text.skip(3) =~= percent_encoded(rest));
            assert(text[0] == '%' && text[1] == high && text[2] == low);
            assert(16 * hex_value(high) + hex_value(low) == data[0]);
        }
        assert(percent_decoded(text) =~= data);
        assert forall|i: int| 0 <= i < text.len() implies url_char(#[trigger] text[i]) by {
            if i >= head.len() {
                assert(text[i] == percent_encoded(rest)[i - head.len()]);
            } else {
                assert(text[i] == head[i]);
            }
        }
    }
}

/// A text starts with a prefix exactly where it is the prefix, character by character, and what
/// follows it.
pub proof fn law_prefix_is_the_start(text: Seq<char>, prefix: Seq<char>, rest: Seq<char>)
    ensures
        has_prefix(text, prefix) <==> prefix.len() <= text.len() && forall|i: int|
            0 <= i < prefix.len() ==> #[trigger] text[i] == prefix[i],
        has_prefix(prefix + rest, prefix),
{
    if prefix.len() <= text.len() && (forall|i: int|
        0 <= i < prefix.len() ==> #[trigger] text[i] == prefix[i]) {
        assert(text.take(prefix.len() as int) =~= prefix);
    }
    if has_prefix(text, prefix) {
        assert forall|i: int| 0 <= i < prefix.len() implies #[trigger] text[i] == prefix[i] by {
            assert(text.take(prefix.len() as int)[i] == text[i]);
        }
    }
    assert((prefix + rest).take(prefix.len() as int) =~= prefix);
}

/// Taking a prefix off takes off all its occurrences in front, and nothing else: what is left does
/// not start with it, and a text that does not start with it is left as it is.
pub proof fn law_prefix_is_taken_off(rest: Seq<char>, prefix: Seq<char>)
    requires
        prefix.len() > 0,
    ensures
        without_prefix(prefix + rest, prefix) == without_prefix(rest, prefix),
        !has_prefix(rest, prefix) ==> without_prefix(rest, prefix) == rest,
        !has_prefix(without_prefix(rest, prefix), prefix),
    decreases rest.len(),
{
    law_prefix_is_the_start(prefix + rest, prefix, rest);
    assert((prefix + rest).skip(prefix.len() as int) =~= rest);
    if has_prefix(rest, prefix) {
        let shorter = rest.skip(prefix.len() as int);
        assert(prefix + shorter =~= rest) by {
            assert(rest.take(prefix.len() as int) == prefix);
        }
        law_prefix_is_taken_off(shorter, prefix);
    }
}

/// The part of a text in front of a character is the text up to its first occurrence, or all of the
/// text where it does not occur.
pub proof fn law_part_before_the_first(text: Seq<char>, stop: char, from: int)
    requires
        0 <= from <= text.len(),
        forall|i: int| 0 <= i < from ==> #[trigger] text[i] != stop,
    ensures
        part_before(text, stop, from).is_prefix_of(text),
        forall|i: int|
            0 <= i < part_before(text, stop, from).len() ==> #[trigger] part_before(text, stop, from)[i]
                != stop,
        part_before(text, stop, from).len() < text.len() ==> text[part_before(text, stop, from).len() as int]
            == stop,
    decreases text.len() - from,
{
    if from < text.len() && text[from] != stop {
        law_part_before_the_first(text, stop, from + 1);
    } else if from == text.len() {
        assert(part_before(text, stop, from) == text);
    }
}

/// A text in ASCII has a byte for each character, which is its code.
pub proof fn law_ascii_codes(text: Seq<char>, i: int)
    requires
        0 <= i < text.len(),
        0 <= (text[i] as int) < 128,
    ensures
        ascii(text).len() == text.len(),
        ascii(text)[i] == text[i] as int,
{
}

} // verus!
