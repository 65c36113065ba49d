//! Bytes written as text: hexadecimal and base64, through `hex` and `base64`.
use vstd::prelude::*;

use base64::Engine;

use crate::text;

verus! {

/// The value of a hexadecimal digit of either case, or -1.
pub open spec fn hex_digit_value(c: char) -> int {
    if '0' <= c && c <= '9' {
        c as int - '0' as int
    } else if 'a' <= c && c <= 'f' {
        c as int - 'a' as int + 10
    } else if 'A' <= c && c <= 'F' {
        c as int - 'A' as int + 10
    } else {
        -1
    }
}

/// The hexadecimal digit of a value below sixteen.
pub open spec fn hex_digit(v: int, upper: bool) -> char {
    if v < 10 {
        ('0' as int + v) as char
    } else if upper {
        ('A' as int + v - 10) as char
    } else {
        ('a' as int + v - 10) as char
    }
}

/// Whether a text is made of pairs of hexadecimal digits.
pub open spec fn is_hex(s: Seq<char>) -> bool {
    &&& s.len() % 2 == 0
    &&& forall|i: int| 0 <= i < s.len() ==> hex_digit_value(#[trigger] s[i]) >= 0
}

/// The bytes that pairs of hexadecimal digits stand for.
pub open spec fn hex_bytes(s: Seq<char>) -> Seq<u8> {
    Seq::new(
        s.len() / 2,
        |i: int| (16 * hex_digit_value(s[2 * i]) + hex_digit_value(s[2 * i + 1])) as u8,
    )
}

/// Bytes as pairs of hexadecimal digits.
pub open spec fn hex_text(b: Seq<u8>, upper: bool) -> Seq<char> {
    Seq::new(
        2 * b.len(),
        |i: int|
            hex_digit(
                if i % 2 == 0 {
                    b[i / 2] as int / 16
                } else {
                    b[i / 2] as int % 16
                },
                upper,
            ),
    )
}

/// The base64 digit of a value below sixty-four.
pub open spec fn base64_digit(v: int) -> char {
    if v < 26 {
        ('A' as int + v) as char
    } else if v < 52 {
        ('a' as int + v - 26) as char
    } else if v < 62 {
        ('0' as int + v - 52) as char
    } else if v == 62 {
        '+'
    } else {
        '/'
    }
}

/// The byte at `i`, or zero behind the end.
pub open spec fn byte_at(b: Seq<u8>, i: int) -> int {
    if i < b.len() {
        b[i] as int
    } else {
        0
    }
}

/// The four digits of the first three bytes.
pub open spec fn base64_quad(b: Seq<u8>) -> Seq<char> {
    seq![
        base64_digit(byte_at(b, 0) / 4),
        base64_digit(byte_at(b, 0) % 4 * 16 + byte_at(b, 1) / 16),
        if b.len() > 1 {
            base64_digit(byte_at(b, 1) % 16 * 4 + byte_at(b, 2) / 64)
        } else {
            '='
        },
        if b.len() > 2 {
            base64_digit(byte_at(b, 2) % 64)
        } else {
            '='
        },
    ]
}

/// Bytes in base64: four digits for each three bytes, six bits to a digit, the
/// most significant ones first, with zero bits to fill the last digit and `=`
/// to fill the last four.
pub open spec fn base64_text(b: Seq<u8>) -> Seq<char>
    decreases b.len(),
{
    if b.len() == 0 {
        Seq::empty()
    } else {
        let rest = if b.len() > 3 {
            base64_text(b.skip(3))
        } else {
            Seq::empty()
        };
        base64_quad(b) + rest
    }
}

/// The text of the error with which `hex::decode` refuses a text.
pub uninterp spec fn hex_error(text: Seq<char>) -> Seq<char>;

/// The text of the error with which the standard base64 engine refuses a text.
pub uninterp spec fn base64_error(text: Seq<char>) -> Seq<char>;

/// `hex::decode`: succeeds exactly on pairs of hexadecimal digits of either
/// case.
#[verifier::external_body]
pub(crate) fn decode_hex(text: &str) -> (r: Result<Vec<u8>, String>)
    ensures
        match r {
            Ok(b) => is_hex(text@) && b@ == hex_bytes(text@),
            Err(e) => !is_hex(text@) && e@ == hex_error(text@),
        },
{
    hex::decode(text).map_err(|e| e.to_string())
}

/// `hex::encode`: lower case digits.
#[verifier::external_body]
pub(crate) fn encode_hex_lower(b: &[u8]) -> (out: String)
    ensures
        out@ == hex_text(b@, false),
{
    hex::encode(b)
}

/// `hex::encode_upper`: upper case digits.
#[verifier::external_body]
pub(crate) fn encode_hex_upper(b: &[u8]) -> (out: String)
    ensures
        out@ == hex_text(b@, true),
{
    hex::encode_upper(b)
}

/// `base64::Engine::decode` of the standard engine: succeeds exactly on the
/// padded base64 text of some bytes, without stray bits in the last digit.
#[verifier::external_body]
pub(crate) fn decode_base64(text: &str) -> (r: Result<Vec<u8>, String>)
    ensures
        match r {
            Ok(b) => text@ == base64_text(b@),
            Err(e) => e@ == base64_error(text@) && forall|b: Seq<u8>|
                text@ != #[trigger] base64_text(b),
        },
{
    base64::engine::general_purpose::STANDARD.decode(text).map_err(|e| e.to_string())
}

proof fn lemma_hex_digit(v: int, upper: bool)
    requires
        0 <= v < 16,
    ensures
        hex_digit_value(hex_digit(v, upper)) == v,
{
}

/// Bytes come back from their hexadecimal text, in either case.
pub proof fn hex_roundtrip(b: Seq<u8>, upper: bool)
    ensures
        is_hex(hex_text(b, upper)),
        hex_bytes(hex_text(b, upper)) == b,
{
    let s = hex_text(b, upper);
    assert forall|i: int| 0 <= i < s.len() implies hex_digit_value(#[trigger] s[i]) >= 0 by {
        lemma_hex_digit(
            if i % 2 == 0 {
                b[i / 2] as int / 16
            } else {
                b[i / 2] as int % 16
            },
            upper,
        );
    }
    assert forall|i: int| 0 <= i < b.len() implies #[trigger] hex_bytes(s)[i] == b[i] by {
        lemma_hex_digit(b[i] as int / 16, upper);
        lemma_hex_digit(b[i] as int % 16, upper);
        assert((2 * i) / 2 == i && (2 * i + 1) / 2 == i);
    }
    assert(hex_bytes(s) =~= b);
}

proof fn lemma_base64_digit(v: int, w: int)
    requires
        0 <= v < 64,
        0 <= w < 64,
        base64_digit(v) == base64_digit(w),
    ensures
        v == w,
        base64_digit(v) != '=',
{
}

proof fn lemma_base64_split(b: Seq<u8>)
    ensures
        b.len() == 0 ==> base64_text(b).len() == 0,
        b.len() > 0 ==> base64_text(b).len() >= 4 && base64_text(b).take(4) == base64_quad(b),
        0 < b.len() <= 3 ==> base64_text(b).len() == 4,
        b.len() > 3 ==> base64_text(b).len() > 4 && base64_text(b).skip(4) == base64_text(
            b.skip(3),
        ),
{
    if b.len() > 3 {
        assert(base64_text(b).take(4) =~= base64_quad(b));
        assert(base64_text(b).skip(4) =~= base64_text(b.skip(3)));
        reveal_with_fuel(base64_text, 2);
        assert(base64_text(b.skip(3)).len() > 0);
    } else if b.len() > 0 {
        assert(base64_text(b).take(4) =~= base64_quad(b));
    }
}

proof fn lemma_base64_quad(a: Seq<u8>, b: Seq<u8>)
    requires
        a.len() > 0,
        b.len() > 0,
        base64_quad(a) == base64_quad(b),
    ensures
        a.len() > 1 <==> b.len() > 1,
        a.len() > 2 <==> b.len() > 2,
        forall|i: int| 0 <= i < 3 && i < a.len() ==> a[i] == b[i],
{
    let s = base64_quad(a);
    let t = base64_quad(b);
    assert(s[0] == t[0] && s[1] == t[1] && s[2] == t[2] && s[3] == t[3]);
    let a_second = byte_at(a, 0) % 4 * 16 + byte_at(a, 1) / 16;
    let b_second = byte_at(b, 0) % 4 * 16 + byte_at(b, 1) / 16;
    let a_third = byte_at(a, 1) % 16 * 4 + byte_at(a, 2) / 64;
    let b_third = byte_at(b, 1) % 16 * 4 + byte_at(b, 2) / 64;
    lemma_base64_digit(byte_at(a, 0) / 4, byte_at(b, 0) / 4);
    lemma_base64_digit(a_second, b_second);
    lemma_base64_digit(a_third, a_third);
    lemma_base64_digit(b_third, b_third);
    lemma_base64_digit(byte_at(a, 2) % 64, byte_at(a, 2) % 64);
    lemma_base64_digit(byte_at(b, 2) % 64, byte_at(b, 2) % 64);
    assert(byte_at(a, 0) == byte_at(b, 0));
    if a.len() > 1 {
        lemma_base64_digit(a_third, b_third);
        assert(byte_at(a, 1) == byte_at(b, 1));
    }
    if a.len() > 2 {
        lemma_base64_digit(byte_at(a, 2) % 64, byte_at(b, 2) % 64);
        assert(byte_at(a, 2) == byte_at(b, 2));
    }
}

/// Different bytes have different base64 texts.
pub proof fn base64_is_injective(a: Seq<u8>, b: Seq<u8>)
    requires
        base64_text(a) == base64_text(b),
    ensures
        a == b,
    decreases a.len(),
{
    lemma_base64_split(a);
    lemma_base64_split(b);
    if a.len() == 0 || b.len() == 0 {
        assert(a =~= b);
    } else {
        lemma_base64_quad(a, b);
        assert(a.len() > 3 <==> b.len() > 3);
        if a.len() > 3 {
            assert(base64_text(a).skip(4) =~= base64_text(b).skip(4));
            base64_is_injective(a.skip(3), b.skip(3));
            assert(a =~= a.take(3) + a.skip(3));
            assert(b =~= b.take(3) + b.skip(3));
            assert(a.take(3) =~= b.take(3));
        } else {
            assert(a =~= b);
        }
    }
}

/// A base64 text starts and ends with no white space.
pub proof fn lemma_base64_ends(b: Seq<u8>)
    requires
        b.len() > 0,
    ensures
        base64_text(b).len() > 0,
        !text::is_white(base64_text(b)[0]),
        !text::is_white(base64_text(b).last()),
    decreases b.len(),
{
    lemma_base64_split(b);
    assert(base64_text(b)[0] == base64_text(b).take(4)[0]);
    if b.len() > 3 {
        lemma_base64_ends(b.skip(3));
        assert(base64_text(b).last() == base64_text(b).skip(4).last());
    } else {
        assert(base64_text(b).last() == base64_text(b).take(4)[3]);
    }
}

/// The first two digits of a base64 text are those of the first byte and the
/// upper half of the second.
pub proof fn lemma_base64_first(b: Seq<u8>)
    requires
        b.len() > 0,
    ensures
        base64_text(b).len() >= 4,
        base64_text(b)[0] == base64_digit(b[0] as int / 4),
        base64_text(b)[1] == base64_digit(b[0] as int % 4 * 16 + byte_at(b, 1) / 16),
{
    lemma_base64_split(b);
    assert(base64_text(b)[0] == base64_text(b).take(4)[0]);
    assert(base64_text(b)[1] == base64_text(b).take(4)[1]);
}

/// What the standard engine makes of a text.
pub open spec fn base64_decoded(text: Seq<char>) -> Result<Seq<u8>, Seq<char>> {
    if exists|b: Seq<u8>| text == #[trigger] base64_text(b) {
        Ok(choose|b: Seq<u8>| text == #[trigger] base64_text(b))
    } else {
        Err(base64_error(text))
    }
}

/// What the hexadecimal decoder makes of a text.
pub open spec fn hex_decoded(text: Seq<char>) -> Result<Seq<u8>, Seq<char>> {
    if is_hex(text) {
        Ok(hex_bytes(text))
    } else {
        Err(hex_error(text))
    }
}

} // verus!
