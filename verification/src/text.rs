//! Text encodings used to build hash inputs: lower-case hexadecimal and
//! base-ten numerals.

use vstd::prelude::*;

verus! {

/// The lower-case hexadecimal digit for a value below 16.
pub open spec fn hex_digit(n: u8) -> char {
    if n < 10 {
        ((48 + n) as u8) as char
    } else {
        ((87 + n) as u8) as char
    }
}

/// Lower-case hexadecimal text of a byte string, two digits per byte, high
/// nibble first.
pub open spec fn hex_lower(bytes: Seq<u8>) -> Seq<char>
    decreases bytes.len(),
{
    if bytes.len() == 0 {
        Seq::empty()
    } else {
        hex_lower(bytes.drop_last()) + seq![
            hex_digit(bytes.last() / 16),
            hex_digit(bytes.last() % 16),
        ]
    }
}

/// Whether `c` is a lower-case hexadecimal digit (`0`-`9` or `a`-`f`).
pub open spec fn is_hex_char(c: char) -> bool {
    ('0' <= c && c <= '9') || ('a' <= c && c <= 'f')
}

/// Whether every character of `text` is a lower-case hexadecimal digit.
pub open spec fn is_lower_hex(text: Seq<char>) -> bool {
    forall|i: int| 0 <= i < text.len() ==> is_hex_char(#[trigger] text[i])
}

/// Hexadecimal text is made of lower-case hexadecimal digits only.
pub proof fn lemma_hex_lower_digits(bytes: Seq<u8>)
    ensures
        is_lower_hex(hex_lower(bytes)),
    decreases bytes.len(),
{
    if bytes.len() > 0 {
        let rest = bytes.drop_last();
        lemma_hex_lower_digits(rest);
        let high = bytes.last() / 16;
        let low = bytes.last() % 16;
        assert(is_hex_char(hex_digit(high)));
        assert(is_hex_char(hex_digit(low)));
        let text = hex_lower(bytes);
        assert(text == hex_lower(rest) + seq![hex_digit(high), hex_digit(low)]);
        assert forall|i: int| 0 <= i < text.len() implies is_hex_char(#[trigger] text[i]) by {
            if i < hex_lower(rest).len() {
                assert(text[i] == hex_lower(rest)[i]);
            }
        }
    }
}

/// Hexadecimal text has two digits per byte, so its length is even.
pub proof fn lemma_hex_lower_len(bytes: Seq<u8>)
    ensures
        hex_lower(bytes).len() == 2 * bytes.len(),
    decreases bytes.len(),
{
    if bytes.len() > 0 {
        lemma_hex_lower_len(bytes.drop_last());
    }
}

/// The decimal digit character for a value below 10.
pub open spec fn decimal_digit(n: nat) -> char {
    ((48 + n) as u8) as char
}

/// Base-ten numeral of a natural number, without sign or leading zeros.
pub open spec fn decimal(n: nat) -> Seq<char>
    decreases n,
{
    if n < 10 {
        seq![decimal_digit(n)]
    } else {
        decimal(n / 10).push(decimal_digit(n % 10))
    }
}

/// Whether `c` is a decimal digit.
pub open spec fn is_decimal_digit(c: char) -> bool {
    '0' <= c && c <= '9'
}

/// The number that a string of decimal digits denotes, most significant
/// digit first.
pub open spec fn digits_value(text: Seq<char>) -> int
    decreases text.len(),
{
    if text.len() == 0 {
        0
    } else {
        digits_value(text.drop_last()) * 10 + (text.last() as int - '0' as int)
    }
}

/// `decimal(n)` is the base-ten numeral of `n`: a non-empty string of decimal
/// digits without a leading zero (unless `n` is 0) that reads back as `n`.
pub proof fn lemma_decimal_reads_back(n: nat)
    ensures
        digits_value(decimal(n)) == n,
        decimal(n).len() >= 1,
        forall|i: int| 0 <= i < decimal(n).len() ==> is_decimal_digit(#[trigger] decimal(n)[i]),
        decimal(n)[0] != '0' || n == 0,
    decreases n,
{
    let last = decimal_digit(n % 10);
    assert(last as int == '0' as int + n % 10);
    if n < 10 {
        assert(decimal(n).drop_last() =~= Seq::<char>::empty());
        assert(digits_value(decimal(n)) == digits_value(decimal(n).drop_last()) * 10 + (last as int - '0' as int));
    } else {
        lemma_decimal_reads_back(n / 10);
        let head = decimal(n / 10);
        let text = decimal(n);
        assert(text == head.push(decimal_digit(n % 10)));
        assert(text.drop_last() =~= head);
        assert(n == (n / 10) * 10 + n % 10);
        assert(digits_value(text) == digits_value(head) * 10 + (last as int - '0' as int));
        assert forall|i: int| 0 <= i < text.len() implies is_decimal_digit(#[trigger] text[i]) by {
            if i < head.len() {
                assert(text[i] == head[i]);
            }
        }
        assert(text[0] == head[0]);
    }
}

/// The value of a lower-case hexadecimal digit.
pub open spec fn hex_digit_value(c: char) -> int {
    if c <= '9' {
        c as int - '0' as int
    } else {
        c as int - 'a' as int + 10
    }
}

/// `hex_lower` writes each byte as two hexadecimal digits, high nibble
/// first: reading digits `2i` and `2i + 1` back gives byte `i`.
pub proof fn lemma_hex_lower_reads_back(bytes: Seq<u8>)
    ensures
        hex_lower(bytes).len() == 2 * bytes.len(),
        forall|i: int|
            0 <= i < bytes.len() ==> hex_digit_value(hex_lower(bytes)[2 * i]) * 16 + hex_digit_value(
                hex_lower(bytes)[2 * i + 1],
            ) == #[trigger] bytes[i],
    decreases bytes.len(),
{
    lemma_hex_lower_len(bytes);
    if bytes.len() > 0 {
        let rest = bytes.drop_last();
        lemma_hex_lower_reads_back(rest);
        let text = hex_lower(bytes);
        let b = bytes.last();
        assert(text == hex_lower(rest) + seq![hex_digit(b / 16), hex_digit(b % 16)]);
        assert(b == (b / 16) * 16 + b % 16);
        assert forall|i: int| 0 <= i < bytes.len() implies hex_digit_value(text[2 * i]) * 16
            + hex_digit_value(text[2 * i + 1]) == #[trigger] bytes[i] by {
            if i < rest.len() {
                assert(text[2 * i] == hex_lower(rest)[2 * i]);
                assert(text[2 * i + 1] == hex_lower(rest)[2 * i + 1]);
                assert(bytes[i] == rest[i]);
            } else {
                assert(text[2 * i] == hex_digit(b / 16));
                assert(text[2 * i + 1] == hex_digit(b % 16));
            }
        }
    }
}

/// Appends one character to a string.
///
/// Calls `String::push`, which std documents as appending the given char to
/// the end of the string.
#[verifier::external_body]
pub(crate) fn push_char(s: &mut String, c: char)
    ensures
        final(s)@ == old(s)@.push(c),
{
    s.push(c);
}

fn hex_digit_char(n: u8) -> (c: char)
    requires
        n < 16,
    ensures
        c == hex_digit(n),
{
    if n < 10 {
        (48 + n) as char
    } else {
        (87 + n) as char
    }
}

/// Lower-case hexadecimal encoding of a byte string.
pub fn hex_encode(bytes: &[u8]) -> (res: String)
    ensures
        res@ == hex_lower(bytes@),
        res@.len() == 2 * bytes@.len(),
        is_lower_hex(res@),
{
    proof {
        lemma_hex_lower_len(bytes@);
        lemma_hex_lower_digits(bytes@);
    }
    let mut res = String::new();
    let n: usize = bytes.len();
    for i in 0..n
        invariant
            n == bytes@.len(),
            res@ == hex_lower(bytes@.take(i as int)),
    {
        let b: u8 = bytes[i];
        push_char(&mut res, hex_digit_char(b / 16));
        push_char(&mut res, hex_digit_char(b % 16));
        assert(bytes@.take(i + 1).drop_last() =~= bytes@.take(i as int));
    }
    assert(bytes@.take(n as int) =~= bytes@);
    res
}

/// Appends the base-ten numeral of `n` to `s`.
pub fn push_decimal(s: &mut String, n: u64)
    ensures
        final(s)@ == old(s)@ + decimal(n as nat),
    decreases n,
{
    if n >= 10 {
        push_decimal(s, n / 10);
    }
    let d: u8 = (n % 10) as u8;
    push_char(s, (48 + d) as char);
    assert(s@ =~= old(s)@ + decimal(n as nat)) by {
        if n >= 10 {
            assert(decimal(n as nat) == decimal((n / 10) as nat).push(decimal_digit((n % 10) as nat)));
        }
    }
}

} // verus!
