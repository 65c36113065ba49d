//! Recursive Length Prefix items.
//!
//! The codec itself is `alloy_rlp`. This module says what its items look like
//! on the wire, proves that an item is determined by the bytes that start with
//! it, and gives the rest of the crate the few primitives it needs.
use vstd::prelude::*;

use crate::text;

verus! {

/// Why a byte string is not the item a decoder asked for.
#[derive(Clone, Debug, PartialEq, Eq)]
pub enum RlpError {
    /// The codec refused the bytes; the text is its own.
    Codec(String),
    /// A string stands where a list belongs.
    UnexpectedString,
    /// Bytes are left over behind the item.
    UnexpectedLength,
    /// The fields of a list do not fill its payload.
    ListLengthMismatch { expected: usize, got: usize },
    /// An integer other than zero and one stands where a flag belongs.
    InvalidBool,
    /// The items are there, but do not make up a value.
    Custom(&'static str),
}

/// An [`RlpError`] with its text as a sequence of characters.
pub enum RlpErrorView {
    Codec(Seq<char>),
    UnexpectedString,
    UnexpectedLength,
    ListLengthMismatch { expected: usize, got: usize },
    InvalidBool,
    Custom(Seq<char>),
}

impl View for RlpError {
    type V = RlpErrorView;

    open spec fn view(&self) -> RlpErrorView {
        match *self {
            RlpError::Codec(text) => RlpErrorView::Codec(text@),
            RlpError::UnexpectedString => RlpErrorView::UnexpectedString,
            RlpError::UnexpectedLength => RlpErrorView::UnexpectedLength,
            RlpError::ListLengthMismatch { expected, got } => RlpErrorView::ListLengthMismatch {
                expected,
                got,
            },
            RlpError::InvalidBool => RlpErrorView::InvalidBool,
            RlpError::Custom(text) => RlpErrorView::Custom(text@),
        }
    }
}

impl RlpErrorView {
    /// The text shown to users.
    pub open spec fn text(self) -> Seq<char> {
        match self {
            RlpErrorView::Codec(text) => text,
            RlpErrorView::UnexpectedString => "unexpected string"@,
            RlpErrorView::UnexpectedLength => "unexpected length"@,
            RlpErrorView::ListLengthMismatch { expected, got } => "unexpected list length (got "@
                + text::decimal_text(got as nat) + ", expected "@ + text::decimal_text(
                expected as nat,
            ) + ")"@,
            RlpErrorView::InvalidBool => "invalid bool value, must be 0 or 1"@,
            RlpErrorView::Custom(text) => text,
        }
    }
}

impl RlpError {
    /// The error as a message.
    pub fn message(&self) -> (out: String)
        ensures
            out@ == self@.text(),
    {
        match self {
            RlpError::Codec(text) => text.clone(),
            RlpError::UnexpectedString => String::from_str("unexpected string"),
            RlpError::UnexpectedLength => String::from_str("unexpected length"),
            RlpError::ListLengthMismatch { expected, got } => {
                let mut out: String = String::from_str("unexpected list length (got ");
                text::push_decimal(&mut out, *got as u64);
                out.append(", expected ");
                text::push_decimal(&mut out, *expected as u64);
                out.append(")");
                out
            },
            RlpError::InvalidBool => String::from_str("invalid bool value, must be 0 or 1"),
            RlpError::Custom(text) => String::from_str(text),
        }
    }
}

/// Big-endian digits of `n` without leading zeros; empty for zero.
pub open spec fn be_bytes(n: nat) -> Seq<u8>
    decreases n,
{
    if n == 0 {
        Seq::empty()
    } else {
        be_bytes(n / 256).push((n % 256) as u8)
    }
}

/// The number that big-endian digits stand for.
pub open spec fn be_value(s: Seq<u8>) -> nat
    decreases s.len(),
{
    if s.len() == 0 {
        0
    } else {
        be_value(s.drop_last()) * 256 + s.last() as nat
    }
}

/// The header in front of a payload of `len` bytes.
pub open spec fn rlp_header(list: bool, len: nat) -> Seq<u8> {
    let base: int = if list {
        0xc0
    } else {
        0x80
    };
    if len < 56 {
        seq![(base + len) as u8]
    } else {
        seq![(base + 55 + be_bytes(len).len()) as u8] + be_bytes(len)
    }
}

/// A byte string item.
pub open spec fn rlp_string(s: Seq<u8>) -> Seq<u8> {
    if s.len() == 1 && s[0] < 0x80 {
        s
    } else {
        rlp_header(false, s.len()) + s
    }
}

/// An unsigned integer item: its minimal big-endian digits as a string.
pub open spec fn rlp_uint(n: nat) -> Seq<u8> {
    rlp_string(be_bytes(n))
}

/// A list item around an already encoded payload.
pub open spec fn rlp_list(payload: Seq<u8>) -> Seq<u8> {
    rlp_header(true, payload.len()) + payload
}

/// The items of a list of small integers, one after the other.
pub open spec fn rlp_uint_items(s: Seq<u8>) -> Seq<u8>
    decreases s.len(),
{
    if s.len() == 0 {
        Seq::empty()
    } else {
        rlp_uint(s[0] as nat) + rlp_uint_items(s.skip(1))
    }
}

/// A byte vector as a list of integers, the form in which vectors travel.
pub open spec fn rlp_byte_list(s: Seq<u8>) -> Seq<u8> {
    rlp_list(rlp_uint_items(s))
}

/// Two to the sixty-fourth: lengths stay below it.
pub open spec fn word() -> nat {
    0x1_0000_0000_0000_0000
}

/// Two to the hundred and twenty-eighth: integers stay below it.
pub open spec fn double_word() -> nat {
    0x1_0000_0000_0000_0000_0000_0000_0000_0000nat
}

/// The items of a list of byte vectors, one after the other.
pub open spec fn rlp_byte_list_items(s: Seq<Seq<u8>>) -> Seq<u8>
    decreases s.len(),
{
    if s.len() == 0 {
        Seq::empty()
    } else {
        rlp_byte_list(s[0]) + rlp_byte_list_items(s.skip(1))
    }
}

/// A list of byte vectors.
pub open spec fn rlp_byte_lists(s: Seq<Seq<u8>>) -> Seq<u8> {
    rlp_list(rlp_byte_list_items(s))
}

pub proof fn lemma_be_value(n: nat)
    ensures
        be_value(be_bytes(n)) == n,
        n > 0 ==> be_bytes(n).len() > 0 && be_bytes(n)[0] != 0,
    decreases n,
{
    if n > 0 {
        lemma_be_value(n / 256);
        assert(be_bytes(n).drop_last() =~= be_bytes(n / 256));
        if n / 256 > 0 {
            assert(be_bytes(n)[0] == be_bytes(n / 256)[0]);
        }
    }
}

pub proof fn lemma_be_len(n: nat, k: nat)
    requires
        n < vstd::arithmetic::power::pow(256, k),
    ensures
        be_bytes(n).len() <= k,
    decreases k,
{
    reveal(vstd::arithmetic::power::pow);
    if n > 0 {
        if k > 0 {
            let p = vstd::arithmetic::power::pow(256, (k - 1) as nat);
            assert(vstd::arithmetic::power::pow(256, k) == 256 * p);
            assert(n / 256 < p);
            lemma_be_len(n / 256, (k - 1) as nat);
        }
    }
}

pub proof fn lemma_be_len_word(n: nat)
    requires
        n < word(),
    ensures
        be_bytes(n).len() <= 8,
{
    assert(vstd::arithmetic::power::pow(256, 8) == word()) by {
        reveal_with_fuel(vstd::arithmetic::power::pow, 9);
    }
    lemma_be_len(n, 8);
}

pub proof fn lemma_be_len_double_word(n: nat)
    requires
        n < double_word(),
    ensures
        be_bytes(n).len() <= 16,
{
    assert(vstd::arithmetic::power::pow(256, 16) == double_word()) by {
        reveal_with_fuel(vstd::arithmetic::power::pow, 17);
    }
    lemma_be_len(n, 16);
}

/// A header is determined by the bytes that start with it.
pub proof fn lemma_header_unique(l1: bool, n1: nat, l2: bool, n2: nat, buf: Seq<u8>)
    requires
        n1 < word(),
        n2 < word(),
        rlp_header(l1, n1).is_prefix_of(buf),
        rlp_header(l2, n2).is_prefix_of(buf),
    ensures
        l1 == l2,
        n1 == n2,
{
    lemma_be_len_word(n1);
    lemma_be_len_word(n2);
    lemma_be_value(n1);
    lemma_be_value(n2);
    let h1 = rlp_header(l1, n1);
    let h2 = rlp_header(l2, n2);
    assert(h1[0] == buf[0]);
    assert(h2[0] == buf[0]);
    assert(l1 == l2);
    if n1 >= 56 {
        assert(n2 >= 56);
        assert(be_bytes(n1).len() == be_bytes(n2).len());
        assert(h1.len() == h2.len());
        assert(h1 =~= h2) by {
            assert(h1 =~= buf.take(h1.len() as int));
            assert(h2 =~= buf.take(h2.len() as int));
        }
        assert(be_bytes(n1) =~= h1.skip(1));
        assert(be_bytes(n2) =~= h2.skip(1));
    }
}

/// Splits a prefix in two.
pub proof fn lemma_prefix_split(a: Seq<u8>, b: Seq<u8>, buf: Seq<u8>)
    requires
        (a + b).is_prefix_of(buf),
    ensures
        a.is_prefix_of(buf),
        a.len() + b.len() <= buf.len(),
        buf.subrange(a.len() as int, (a.len() + b.len()) as int) == b,
{
    let all = a + b;
    assert(all =~= buf.subrange(0, all.len() as int));
    assert forall|i: int| 0 <= i < a.len() implies a[i] == buf[i] by {
        assert(all[i] == buf[i]);
    }
    assert forall|i: int| 0 <= i < b.len() implies b[i] == buf[a.len() + i] by {
        assert(all[a.len() + i] == buf[a.len() + i]);
    }
    assert(buf.subrange(a.len() as int, (a.len() + b.len()) as int) =~= b);
}

/// A string item is determined by the bytes that start with it.
pub proof fn lemma_string_unique(s1: Seq<u8>, s2: Seq<u8>, buf: Seq<u8>)
    requires
        s1.len() < word(),
        s2.len() < word(),
        rlp_string(s1).is_prefix_of(buf),
        rlp_string(s2).is_prefix_of(buf),
    ensures
        s1 == s2,
{
    let small1 = s1.len() == 1 && s1[0] < 0x80;
    let small2 = s2.len() == 1 && s2[0] < 0x80;
    assert(rlp_string(s1).len() > 0);
    assert(rlp_string(s1)[0] == buf[0]);
    assert(rlp_string(s2).len() > 0);
    assert(rlp_string(s2)[0] == buf[0]);
    lemma_be_len_word(s1.len());
    lemma_be_len_word(s2.len());
    if small1 || small2 {
        assert(small1 && small2);
        assert(s1 =~= s2);
    } else {
        lemma_prefix_split(rlp_header(false, s1.len()), s1, buf);
        lemma_prefix_split(rlp_header(false, s2.len()), s2, buf);
        lemma_header_unique(false, s1.len(), false, s2.len(), buf);
    }
}

/// An integer item is determined by the bytes that start with it.
pub proof fn lemma_uint_unique(a: nat, b: nat, buf: Seq<u8>)
    requires
        a < double_word(),
        b < double_word(),
        rlp_uint(a).is_prefix_of(buf),
        rlp_uint(b).is_prefix_of(buf),
    ensures
        a == b,
{
    lemma_be_len_double_word(a);
    lemma_be_len_double_word(b);
    lemma_string_unique(be_bytes(a), be_bytes(b), buf);
    lemma_be_value(a);
    lemma_be_value(b);
}

/// The items of a longer vector are those of the shorter one and one more.
pub proof fn lemma_uint_items_push(s: Seq<u8>, b: u8)
    ensures
        rlp_uint_items(s.push(b)) == rlp_uint_items(s) + rlp_uint(b as nat),
    decreases s.len(),
{
    reveal_with_fuel(rlp_uint_items, 2);
    if s.len() == 0 {
        assert(s.push(b).skip(1) =~= Seq::<u8>::empty());
        assert(rlp_uint_items(s.push(b)) =~= rlp_uint_items(s) + rlp_uint(b as nat));
    } else {
        lemma_uint_items_push(s.skip(1), b);
        assert(s.push(b).skip(1) =~= s.skip(1).push(b));
        assert(rlp_uint_items(s.push(b)) =~= rlp_uint_items(s) + rlp_uint(b as nat));
    }
}

/// The items of a longer list are those of the shorter one and one more.
pub proof fn lemma_byte_list_items_push(s: Seq<Seq<u8>>, b: Seq<u8>)
    ensures
        rlp_byte_list_items(s.push(b)) == rlp_byte_list_items(s) + rlp_byte_list(b),
    decreases s.len(),
{
    reveal_with_fuel(rlp_byte_list_items, 2);
    if s.len() == 0 {
        assert(s.push(b).skip(1) =~= Seq::<Seq<u8>>::empty());
        assert(rlp_byte_list_items(s.push(b)) =~= rlp_byte_list_items(s) + rlp_byte_list(b));
    } else {
        lemma_byte_list_items_push(s.skip(1), b);
        assert(s.push(b).skip(1) =~= s.skip(1).push(b));
        assert(rlp_byte_list_items(s.push(b)) =~= rlp_byte_list_items(s) + rlp_byte_list(b));
    }
}

/// How bytes are encoded: a small byte as itself, a short string or list behind
/// one byte that tells its length, a long one behind a byte that tells how long
/// the length is, and the length, most significant byte first.
pub proof fn strings_and_lists_tell_their_length(s: Seq<u8>)
    ensures
        s.len() == 1 && s[0] < 0x80 ==> rlp_string(s) == s,
        s.len() < 56 && !(s.len() == 1 && s[0] < 0x80) ==> rlp_string(s) == seq![
            (0x80 + s.len()) as u8,
        ] + s,
        s.len() < 56 ==> rlp_list(s) == seq![(0xc0 + s.len()) as u8] + s,
        s.len() >= 56 && s.len() < word() ==> {
            let n = be_bytes(s.len());
            &&& 1 <= n.len() <= 8
            &&& n[0] != 0
            &&& be_value(n) == s.len()
            &&& rlp_string(s) == seq![(0xb7 + n.len()) as u8] + n + s
            &&& rlp_list(s) == seq![(0xf7 + n.len()) as u8] + n + s
        },
{
    if s.len() >= 56 && s.len() < word() {
        lemma_be_value(s.len());
        lemma_be_len_word(s.len());
    }
}

/// The value of some bytes, most significant one first: a byte more makes it
/// that byte plus two hundred and fifty-six times what it was.
pub proof fn bytes_count_from_the_front(s: Seq<u8>, b: u8)
    ensures
        be_value(s.push(b)) == be_value(s) * 256 + b,
        be_value(Seq::empty()) == 0,
{
    assert(s.push(b).drop_last() =~= s);
}

proof fn lemma_uint_items_concat(a: Seq<u8>, b: Seq<u8>)
    ensures
        rlp_uint_items(a + b) == rlp_uint_items(a) + rlp_uint_items(b),
    decreases a.len(),
{
    if a.len() == 0 {
        assert(a + b =~= b);
        assert(rlp_uint_items(a) + rlp_uint_items(b) =~= rlp_uint_items(b));
    } else {
        lemma_uint_items_concat(a.skip(1), b);
        assert((a + b).skip(1) =~= a.skip(1) + b);
        assert(rlp_uint(a[0] as nat) + (rlp_uint_items(a.skip(1)) + rlp_uint_items(b)) =~= (
        rlp_uint(a[0] as nat) + rlp_uint_items(a.skip(1))) + rlp_uint_items(b));
    }
}

/// The items of a list stand in their order: those of two lists put together
/// are those of the first and then those of the second, and one item is its
/// encoded number.
pub proof fn items_stand_in_order(a: Seq<u8>, b: Seq<u8>, v: u8)
    ensures
        rlp_uint_items(a + b) == rlp_uint_items(a) + rlp_uint_items(b),
        rlp_uint_items(seq![v]) == rlp_uint(v as nat),
        rlp_uint_items(Seq::empty()) == Seq::<u8>::empty(),
        rlp_byte_list(a) == rlp_list(rlp_uint_items(a)),
{
    lemma_uint_items_concat(a, b);
    lemma_uint_items_push(Seq::empty(), v);
    assert(Seq::<u8>::empty().push(v) =~= seq![v]);
    assert(rlp_uint_items(Seq::empty()) + rlp_uint(v as nat) =~= rlp_uint(v as nat));
}

/// What an error says is what it holds, in words of its own where it has any.
pub proof fn errors_say_what_they_hold(e: RlpError)
    ensures
        match e {
            RlpError::Codec(words) => e@ == RlpErrorView::Codec(words@) && e@.text() == words@,
            RlpError::UnexpectedString => e@ == RlpErrorView::UnexpectedString && e@.text()
                == "unexpected string"@,
            RlpError::UnexpectedLength => e@ == RlpErrorView::UnexpectedLength && e@.text()
                == "unexpected length"@,
            RlpError::ListLengthMismatch { expected, got } => e@
                == (RlpErrorView::ListLengthMismatch { expected, got }) && e@.text()
                == "unexpected list length (got "@ + text::decimal_text(got as nat)
                + ", expected "@ + text::decimal_text(expected as nat) + ")"@,
            RlpError::InvalidBool => e@ == RlpErrorView::InvalidBool && e@.text()
                == "invalid bool value, must be 0 or 1"@,
            RlpError::Custom(words) => e@ == RlpErrorView::Custom(words@) && e@.text() == words@,
        },
{
}

} // verus!
