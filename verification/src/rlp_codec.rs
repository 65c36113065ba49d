//! Encoding and decoding of RLP items through `alloy_rlp`.
//!
//! Decoders take the bytes at hand and return the value together with the
//! bytes behind it.
use vstd::prelude::*;

use crate::cosmos_types;
use crate::rlp;
use crate::rlp::{RlpError, RlpErrorView};

verus! {

/// The text with which `<u128 as alloy_rlp::Decodable>::decode` refuses bytes.
pub uninterp spec fn rlp_u128_error(bytes: Seq<u8>) -> Seq<char>;

/// The text with which `<u64 as alloy_rlp::Decodable>::decode` refuses bytes.
pub uninterp spec fn rlp_u64_error(bytes: Seq<u8>) -> Seq<char>;

/// The text with which `<u16 as alloy_rlp::Decodable>::decode` refuses bytes.
pub uninterp spec fn rlp_u16_error(bytes: Seq<u8>) -> Seq<char>;

/// The text with which `<u8 as alloy_rlp::Decodable>::decode` refuses bytes.
pub uninterp spec fn rlp_u8_error(bytes: Seq<u8>) -> Seq<char>;

/// The text with which `alloy_rlp::Header::decode` refuses bytes; `None` where
/// it finds a header and the payload behind it.
pub uninterp spec fn rlp_header_error(bytes: Seq<u8>) -> Option<Seq<char>>;

/// Whether `bytes` start with the integer `v`.
pub open spec fn uint_at(bytes: Seq<u8>, v: nat) -> bool {
    rlp::rlp_uint(v).is_prefix_of(bytes)
}

/// Whether `bytes` start with the header of a list of `len` bytes, all present.
pub open spec fn list_header_at(bytes: Seq<u8>, len: nat) -> bool {
    &&& rlp::rlp_header(true, len).is_prefix_of(bytes)
    &&& rlp::rlp_header(true, len).len() + len <= bytes.len()
}

/// `alloy_rlp::encode` of a `u64`: the integer item of its value.
#[verifier::external_body]
pub(crate) fn encode_u64(value: u64) -> (out: Vec<u8>)
    ensures
        out@ == rlp::rlp_uint(value as nat),
{
    alloy_rlp::encode(value)
}

/// `alloy_rlp::encode` of a `u128`: the integer item of its value.
#[verifier::external_body]
pub(crate) fn encode_u128(value: u128) -> (out: Vec<u8>)
    ensures
        out@ == rlp::rlp_uint(value as nat),
{
    alloy_rlp::encode(value)
}

/// `alloy_rlp::encode` of four bytes: one string item.
#[verifier::external_body]
pub(crate) fn encode_four_bytes(bytes: [u8; 4]) -> (out: Vec<u8>)
    ensures
        out@ == rlp::rlp_string(bytes@),
{
    alloy_rlp::encode(bytes)
}

/// `alloy_rlp::Header::encode` of a list header.
#[verifier::external_body]
pub(crate) fn encode_list_header(payload_length: usize) -> (out: Vec<u8>)
    ensures
        out@ == rlp::rlp_header(true, payload_length as nat),
{
    let mut out = Vec::new();
    alloy_rlp::Header { list: true, payload_length }.encode(&mut out);
    out
}

/// `<u64 as alloy_rlp::Decodable>::decode`: succeeds exactly on bytes that
/// start with the item of an integer, and stops behind it.
#[verifier::external_body]
fn codec_u64(bytes: &[u8]) -> (r: Result<(u64, &[u8]), String>)
    ensures
        match r {
            Ok((v, rest)) => uint_at(bytes@, v as nat) && rest@ == bytes@.skip(
                rlp::rlp_uint(v as nat).len() as int,
            ),
            Err(text) => text@ == rlp_u64_error(bytes@) && forall|v: u64|
                !#[trigger] uint_at(bytes@, v as nat),
        },
{
    let mut buf = bytes;
    match <u64 as alloy_rlp::Decodable>::decode(&mut buf) {
        Ok(v) => Ok((v, buf)),
        Err(e) => Err(e.to_string()),
    }
}

/// `<u128 as alloy_rlp::Decodable>::decode`, as for `u64` with values of 128 bits.
#[verifier::external_body]
fn codec_u128(bytes: &[u8]) -> (r: Result<(u128, &[u8]), String>)
    ensures
        match r {
            Ok((v, rest)) => uint_at(bytes@, v as nat) && rest@ == bytes@.skip(
                rlp::rlp_uint(v as nat).len() as int,
            ),
            Err(text) => text@ == rlp_u128_error(bytes@) && forall|v: u128|
                !#[trigger] uint_at(bytes@, v as nat),
        },
{
    let mut buf = bytes;
    match <u128 as alloy_rlp::Decodable>::decode(&mut buf) {
        Ok(v) => Ok((v, buf)),
        Err(e) => Err(e.to_string()),
    }
}

/// `<u16 as alloy_rlp::Decodable>::decode`, as for `u64` with values of sixteen bits.
#[verifier::external_body]
fn codec_u16(bytes: &[u8]) -> (r: Result<(u16, &[u8]), String>)
    ensures
        match r {
            Ok((v, rest)) => uint_at(bytes@, v as nat) && rest@ == bytes@.skip(
                rlp::rlp_uint(v as nat).len() as int,
            ),
            Err(text) => text@ == rlp_u16_error(bytes@) && forall|v: u16|
                !#[trigger] uint_at(bytes@, v as nat),
        },
{
    let mut buf = bytes;
    match <u16 as alloy_rlp::Decodable>::decode(&mut buf) {
        Ok(v) => Ok((v, buf)),
        Err(e) => Err(e.to_string()),
    }
}

/// `<u8 as alloy_rlp::Decodable>::decode`, as for `u64` with values of eight bits.
#[verifier::external_body]
fn codec_u8(bytes: &[u8]) -> (r: Result<(u8, &[u8]), String>)
    ensures
        match r {
            Ok((v, rest)) => uint_at(bytes@, v as nat) && rest@ == bytes@.skip(
                rlp::rlp_uint(v as nat).len() as int,
            ),
            Err(text) => text@ == rlp_u8_error(bytes@) && forall|v: u8|
                !#[trigger] uint_at(bytes@, v as nat),
        },
{
    let mut buf = bytes;
    match <u8 as alloy_rlp::Decodable>::decode(&mut buf) {
        Ok(v) => Ok((v, buf)),
        Err(e) => Err(e.to_string()),
    }
}

/// `alloy_rlp::Header::decode`: whether a list or a string starts here, the
/// length of its payload and the bytes behind the header. Nothing is said of
/// the length and the rest where a string starts.
#[verifier::external_body]
fn codec_header(bytes: &[u8]) -> (r: Result<(bool, usize, &[u8]), String>)
    ensures
        match r {
            Ok((list, len, rest)) => {
                &&& rlp_header_error(bytes@) is None
                &&& list ==> list_header_at(bytes@, len as nat) && rest@ == bytes@.skip(
                    rlp::rlp_header(true, len as nat).len() as int,
                )
                &&& !list ==> bytes@.len() > 0 && bytes@[0] < 0xc0
            },
            Err(text) => {
                &&& rlp_header_error(bytes@) == Some(text@)
                &&& forall|n: usize| !#[trigger] list_header_at(bytes@, n as nat)
            },
        },
{
    let mut buf = bytes;
    match alloy_rlp::Header::decode(&mut buf) {
        Ok(header) => Ok((header.list, header.payload_length, buf)),
        Err(e) => Err(e.to_string()),
    }
}

/// `<[u8; 4] as alloy_rlp::Decodable>::decode`: succeeds exactly on bytes that
/// start with a string item of four bytes.
#[verifier::external_body]
fn codec_four_bytes(bytes: &[u8]) -> (r: Option<([u8; 4], &[u8])>)
    ensures
        match r {
            Some((v, rest)) => rlp::rlp_string(v@).is_prefix_of(bytes@) && rest@ == bytes@.skip(
                rlp::rlp_string(v@).len() as int,
            ),
            None => forall|v: [u8; 4]| !(#[trigger] rlp::rlp_string(v@)).is_prefix_of(bytes@),
        },
{
    let mut buf = bytes;
    match <[u8; 4] as alloy_rlp::Decodable>::decode(&mut buf) {
        Ok(v) => Some((v, buf)),
        Err(_) => None,
    }
}

/// What a `u64` decoder makes of `bytes`.
#[verifier::opaque]
pub open spec fn parse_u64(bytes: Seq<u8>) -> Result<(u64, Seq<u8>), RlpErrorView> {
    if exists|v: u64| #[trigger] uint_at(bytes, v as nat) {
        let v = choose|v: u64| #[trigger] uint_at(bytes, v as nat);
        Ok((v, bytes.skip(rlp::rlp_uint(v as nat).len() as int)))
    } else {
        Err(RlpErrorView::Codec(rlp_u64_error(bytes)))
    }
}

/// What a `u128` decoder makes of `bytes`.
#[verifier::opaque]
pub open spec fn parse_u128(bytes: Seq<u8>) -> Result<(u128, Seq<u8>), RlpErrorView> {
    if exists|v: u128| #[trigger] uint_at(bytes, v as nat) {
        let v = choose|v: u128| #[trigger] uint_at(bytes, v as nat);
        Ok((v, bytes.skip(rlp::rlp_uint(v as nat).len() as int)))
    } else {
        Err(RlpErrorView::Codec(rlp_u128_error(bytes)))
    }
}

/// What a `u16` decoder makes of `bytes`.
#[verifier::opaque]
pub open spec fn parse_u16(bytes: Seq<u8>) -> Result<(u16, Seq<u8>), RlpErrorView> {
    if exists|v: u16| #[trigger] uint_at(bytes, v as nat) {
        let v = choose|v: u16| #[trigger] uint_at(bytes, v as nat);
        Ok((v, bytes.skip(rlp::rlp_uint(v as nat).len() as int)))
    } else {
        Err(RlpErrorView::Codec(rlp_u16_error(bytes)))
    }
}

/// What a `u8` decoder makes of `bytes`.
#[verifier::opaque]
pub open spec fn parse_u8(bytes: Seq<u8>) -> Result<(u8, Seq<u8>), RlpErrorView> {
    if exists|v: u8| #[trigger] uint_at(bytes, v as nat) {
        let v = choose|v: u8| #[trigger] uint_at(bytes, v as nat);
        Ok((v, bytes.skip(rlp::rlp_uint(v as nat).len() as int)))
    } else {
        Err(RlpErrorView::Codec(rlp_u8_error(bytes)))
    }
}

/// What a flag decoder makes of `bytes`: zero and one are the two flags.
pub open spec fn parse_bool(bytes: Seq<u8>) -> Result<(bool, Seq<u8>), RlpErrorView> {
    match parse_u8(bytes) {
        Ok((v, rest)) => if v == 0 {
            Ok((false, rest))
        } else if v == 1 {
            Ok((true, rest))
        } else {
            Err(RlpErrorView::InvalidBool)
        },
        Err(e) => Err(e),
    }
}

/// What a decoder of a list header makes of `bytes`: the length of the payload
/// and everything behind the header.
#[verifier::opaque]
pub open spec fn parse_list_header(bytes: Seq<u8>) -> Result<(usize, Seq<u8>), RlpErrorView> {
    if exists|n: usize| #[trigger] list_header_at(bytes, n as nat) {
        let n = choose|n: usize| #[trigger] list_header_at(bytes, n as nat);
        Ok((n, bytes.skip(rlp::rlp_header(true, n as nat).len() as int)))
    } else {
        match rlp_header_error(bytes) {
            Some(text) => Err(RlpErrorView::Codec(text)),
            None => Err(RlpErrorView::UnexpectedString),
        }
    }
}

/// What a decoder of a whole list makes of `bytes`: its payload and the rest.
pub open spec fn parse_list(bytes: Seq<u8>) -> Result<(Seq<u8>, Seq<u8>), RlpErrorView> {
    match parse_list_header(bytes) {
        Ok((n, rest)) => Ok((rest.take(n as int), rest.skip(n as int))),
        Err(e) => Err(e),
    }
}

/// What a decoder of consecutive `u8` items makes of `bytes`.
pub open spec fn parse_u8_items(bytes: Seq<u8>) -> Result<Seq<u8>, RlpErrorView>
    decreases bytes.len(),
{
    if bytes.len() == 0 {
        Ok(Seq::empty())
    } else {
        match parse_u8(bytes) {
            Ok((v, rest)) => if rest.len() < bytes.len() {
                match parse_u8_items(rest) {
                    Ok(tail) => Ok(seq![v] + tail),
                    Err(e) => Err(e),
                }
            } else {
                Ok(Seq::empty())
            },
            Err(e) => Err(e),
        }
    }
}

/// What a decoder of a byte vector makes of `bytes`.
#[verifier::opaque]
pub open spec fn parse_byte_list(bytes: Seq<u8>) -> Result<(Seq<u8>, Seq<u8>), RlpErrorView> {
    match parse_list(bytes) {
        Ok((payload, rest)) => match parse_u8_items(payload) {
            Ok(items) => Ok((items, rest)),
            Err(e) => Err(e),
        },
        Err(e) => Err(e),
    }
}

/// What a decoder of consecutive byte vectors makes of `bytes`; more than
/// `limit` of them are refused.
pub open spec fn parse_byte_list_items(bytes: Seq<u8>, limit: nat) -> Result<
    Seq<Seq<u8>>,
    RlpErrorView,
>
    decreases bytes.len(),
{
    if bytes.len() == 0 {
        Ok(Seq::empty())
    } else if limit == 0 {
        Err(RlpErrorView::Custom("list exceeds its limit"@))
    } else {
        match parse_byte_list(bytes) {
            Ok((v, rest)) => if rest.len() < bytes.len() {
                match parse_byte_list_items(rest, (limit - 1) as nat) {
                    Ok(tail) => Ok(seq![v] + tail),
                    Err(e) => Err(e),
                }
            } else {
                Ok(Seq::empty())
            },
            Err(e) => Err(e),
        }
    }
}

/// What a decoder of a bounded list of byte vectors makes of `bytes`.
#[verifier::opaque]
pub open spec fn parse_byte_lists(bytes: Seq<u8>, limit: nat) -> Result<
    (Seq<Seq<u8>>, Seq<u8>),
    RlpErrorView,
> {
    match parse_list(bytes) {
        Ok((payload, rest)) => match parse_byte_list_items(payload, limit) {
            Ok(items) => Ok((items, rest)),
            Err(e) => Err(e),
        },
        Err(e) => Err(e),
    }
}

/// Decoding an encoded integer gives it back, whatever follows.
pub proof fn lemma_parse_u64(v: u64, rest: Seq<u8>)
    ensures
        parse_u64(rlp::rlp_uint(v as nat) + rest) == Ok::<(u64, Seq<u8>), RlpErrorView>((v, rest)),
{
    reveal(parse_u64);
    let bytes = rlp::rlp_uint(v as nat) + rest;
    assert(rlp::rlp_uint(v as nat) =~= bytes.subrange(0, rlp::rlp_uint(v as nat).len() as int));
    assert(uint_at(bytes, v as nat));
    let w = choose|w: u64| #[trigger] uint_at(bytes, w as nat);
    rlp::lemma_uint_unique(v as nat, w as nat, bytes);
    assert(bytes.skip(rlp::rlp_uint(v as nat).len() as int) =~= rest);
}

/// As [`lemma_parse_u64`], for 128 bits.
pub proof fn lemma_parse_u128(v: u128, rest: Seq<u8>)
    ensures
        parse_u128(rlp::rlp_uint(v as nat) + rest) == Ok::<(u128, Seq<u8>), RlpErrorView>(
            (v, rest),
        ),
{
    reveal(parse_u128);
    let bytes = rlp::rlp_uint(v as nat) + rest;
    assert(rlp::rlp_uint(v as nat) =~= bytes.subrange(0, rlp::rlp_uint(v as nat).len() as int));
    assert(uint_at(bytes, v as nat));
    let w = choose|w: u128| #[trigger] uint_at(bytes, w as nat);
    rlp::lemma_uint_unique(v as nat, w as nat, bytes);
    assert(bytes.skip(rlp::rlp_uint(v as nat).len() as int) =~= rest);
}

/// As [`lemma_parse_u64`], for sixteen bits.
pub proof fn lemma_parse_u16(v: u16, rest: Seq<u8>)
    ensures
        parse_u16(rlp::rlp_uint(v as nat) + rest) == Ok::<(u16, Seq<u8>), RlpErrorView>((v, rest)),
{
    reveal(parse_u16);
    let bytes = rlp::rlp_uint(v as nat) + rest;
    assert(rlp::rlp_uint(v as nat) =~= bytes.subrange(0, rlp::rlp_uint(v as nat).len() as int));
    assert(uint_at(bytes, v as nat));
    let w = choose|w: u16| #[trigger] uint_at(bytes, w as nat);
    rlp::lemma_uint_unique(v as nat, w as nat, bytes);
    assert(bytes.skip(rlp::rlp_uint(v as nat).len() as int) =~= rest);
}

/// As [`lemma_parse_u64`], for eight bits.
pub proof fn lemma_parse_u8(v: u8, rest: Seq<u8>)
    ensures
        parse_u8(rlp::rlp_uint(v as nat) + rest) == Ok::<(u8, Seq<u8>), RlpErrorView>((v, rest)),
{
    reveal(parse_u8);
    let bytes = rlp::rlp_uint(v as nat) + rest;
    assert(rlp::rlp_uint(v as nat) =~= bytes.subrange(0, rlp::rlp_uint(v as nat).len() as int));
    assert(uint_at(bytes, v as nat));
    let w = choose|w: u8| #[trigger] uint_at(bytes, w as nat);
    rlp::lemma_uint_unique(v as nat, w as nat, bytes);
    assert(bytes.skip(rlp::rlp_uint(v as nat).len() as int) =~= rest);
}

/// Reading a list header gives the length of the payload and what follows.
pub proof fn lemma_parse_list_header(n: usize, rest: Seq<u8>)
    requires
        n <= rest.len(),
    ensures
        parse_list_header(rlp::rlp_header(true, n as nat) + rest) == Ok::<
            (usize, Seq<u8>),
            RlpErrorView,
        >((n, rest)),
{
    reveal(parse_list_header);
    let h = rlp::rlp_header(true, n as nat);
    let bytes = h + rest;
    assert(h =~= bytes.subrange(0, h.len() as int));
    assert(list_header_at(bytes, n as nat));
    let m = choose|m: usize| #[trigger] list_header_at(bytes, m as nat);
    rlp::lemma_header_unique(true, n as nat, true, m as nat, bytes);
    assert(bytes.skip(h.len() as int) =~= rest);
}

/// Reading a list gives its payload and what follows.
pub proof fn lemma_parse_list(payload: Seq<u8>, rest: Seq<u8>)
    requires
        payload.len() <= usize::MAX,
    ensures
        parse_list(rlp::rlp_list(payload) + rest) == Ok::<(Seq<u8>, Seq<u8>), RlpErrorView>(
            (payload, rest),
        ),
{
    lemma_parse_list_header(payload.len() as usize, payload + rest);
    assert(rlp::rlp_list(payload) + rest =~= rlp::rlp_header(true, payload.len()) + (payload
        + rest));
    assert((payload + rest).take(payload.len() as int) =~= payload);
    assert((payload + rest).skip(payload.len() as int) =~= rest);
}

/// Decoding the items of a byte vector gives the vector back.
pub proof fn lemma_parse_u8_items(s: Seq<u8>)
    ensures
        parse_u8_items(rlp::rlp_uint_items(s)) == Ok::<Seq<u8>, RlpErrorView>(s),
    decreases s.len(),
{
    if s.len() == 0 {
        assert(s =~= Seq::<u8>::empty());
    } else {
        lemma_parse_u8(s[0], rlp::rlp_uint_items(s.skip(1)));
        lemma_parse_u8_items(s.skip(1));
        assert(rlp::rlp_uint(s[0] as nat).len() > 0);
        assert(s =~= seq![s[0]] + s.skip(1));
    }
}

/// Decoding an encoded byte vector gives it back, whatever follows.
pub proof fn lemma_parse_byte_list(s: Seq<u8>, rest: Seq<u8>)
    requires
        rlp::rlp_uint_items(s).len() <= usize::MAX,
    ensures
        parse_byte_list(rlp::rlp_byte_list(s) + rest) == Ok::<(Seq<u8>, Seq<u8>), RlpErrorView>(
            (s, rest),
        ),
{
    reveal(parse_byte_list);
    lemma_parse_list(rlp::rlp_uint_items(s), rest);
    lemma_parse_u8_items(s);
}

/// Decoding the items of a list of byte vectors gives the list back.
pub proof fn lemma_parse_byte_list_items(s: Seq<Seq<u8>>, limit: nat)
    requires
        s.len() <= limit,
        rlp::rlp_byte_list_items(s).len() <= usize::MAX,
    ensures
        parse_byte_list_items(rlp::rlp_byte_list_items(s), limit) == Ok::<
            Seq<Seq<u8>>,
            RlpErrorView,
        >(s),
    decreases s.len(),
{
    if s.len() == 0 {
        assert(s =~= Seq::<Seq<u8>>::empty());
    } else {
        let rest = rlp::rlp_byte_list_items(s.skip(1));
        assert(rlp::rlp_byte_list(s[0]).len() > rlp::rlp_uint_items(s[0]).len());
        lemma_parse_byte_list(s[0], rest);
        lemma_parse_byte_list_items(s.skip(1), (limit - 1) as nat);
        assert(s =~= seq![s[0]] + s.skip(1));
    }
}

/// Decoding an encoded list of byte vectors gives it back, whatever follows.
pub proof fn lemma_parse_byte_lists(s: Seq<Seq<u8>>, limit: nat, rest: Seq<u8>)
    requires
        s.len() <= limit,
        rlp::rlp_byte_list_items(s).len() <= usize::MAX,
    ensures
        parse_byte_lists(rlp::rlp_byte_lists(s) + rest, limit) == Ok::<
            (Seq<Seq<u8>>, Seq<u8>),
            RlpErrorView,
        >((s, rest)),
{
    reveal(parse_byte_lists);
    lemma_parse_list(rlp::rlp_byte_list_items(s), rest);
    lemma_parse_byte_list_items(s, limit);
}

/// What a decoder of byte vectors accepts is the encoding of as many vectors as
/// are allowed.
pub proof fn lemma_parse_byte_list_items_canonical(bytes: Seq<u8>, limit: nat)
    ensures
        parse_byte_list_items(bytes, limit) matches Ok(s) ==> bytes == rlp::rlp_byte_list_items(s)
            && s.len() <= limit,
    decreases bytes.len(),
{
    if bytes.len() > 0 && limit > 0 {
        lemma_parse_byte_list_canonical(bytes);
        if let Ok((v, rest)) = parse_byte_list(bytes) {
            assert(rlp::rlp_byte_list(v).len() > 0);
            lemma_parse_byte_list_items_canonical(rest, (limit - 1) as nat);
            if let Ok(tail) = parse_byte_list_items(rest, (limit - 1) as nat) {
                assert((seq![v] + tail).skip(1) =~= tail);
            }
        }
    } else {
        assert(bytes.len() == 0 ==> bytes =~= rlp::rlp_byte_list_items(Seq::empty()));
    }
}

/// What a decoder of a bounded list accepts starts with the encoding of the list.
pub proof fn lemma_parse_byte_lists_canonical(bytes: Seq<u8>, limit: nat)
    ensures
        parse_byte_lists(bytes, limit) matches Ok((s, rest)) ==> bytes == rlp::rlp_byte_lists(s)
            + rest && s.len() <= limit,
{
    reveal(parse_byte_lists);
    lemma_parse_list_canonical(bytes);
    if let Ok((payload, rest)) = parse_list(bytes) {
        lemma_parse_byte_list_items_canonical(payload, limit);
    }
}

/// What a `u64` decoder accepts starts with the encoding of the value.
pub proof fn lemma_parse_u64_canonical(bytes: Seq<u8>)
    ensures
        parse_u64(bytes) matches Ok((v, rest)) ==> bytes == rlp::rlp_uint(v as nat) + rest,
{
    reveal(parse_u64);
    if exists|v: u64| #[trigger] uint_at(bytes, v as nat) {
        let v = choose|v: u64| #[trigger] uint_at(bytes, v as nat);
        let n = rlp::rlp_uint(v as nat).len() as int;
        assert(bytes =~= bytes.subrange(0, n) + bytes.skip(n));
    }
}

/// What a `u128` decoder accepts starts with the encoding of the value.
pub proof fn lemma_parse_u128_canonical(bytes: Seq<u8>)
    ensures
        parse_u128(bytes) matches Ok((v, rest)) ==> bytes == rlp::rlp_uint(v as nat) + rest,
{
    reveal(parse_u128);
    if exists|v: u128| #[trigger] uint_at(bytes, v as nat) {
        let v = choose|v: u128| #[trigger] uint_at(bytes, v as nat);
        let n = rlp::rlp_uint(v as nat).len() as int;
        assert(bytes =~= bytes.subrange(0, n) + bytes.skip(n));
    }
}

/// What a `u16` decoder accepts starts with the encoding of the value.
pub proof fn lemma_parse_u16_canonical(bytes: Seq<u8>)
    ensures
        parse_u16(bytes) matches Ok((v, rest)) ==> bytes == rlp::rlp_uint(v as nat) + rest,
{
    reveal(parse_u16);
    if exists|v: u16| #[trigger] uint_at(bytes, v as nat) {
        let v = choose|v: u16| #[trigger] uint_at(bytes, v as nat);
        let n = rlp::rlp_uint(v as nat).len() as int;
        assert(bytes =~= bytes.subrange(0, n) + bytes.skip(n));
    }
}

/// What a `u8` decoder accepts starts with the encoding of the value.
pub proof fn lemma_parse_u8_canonical(bytes: Seq<u8>)
    ensures
        parse_u8(bytes) matches Ok((v, rest)) ==> bytes == rlp::rlp_uint(v as nat) + rest,
{
    reveal(parse_u8);
    if exists|v: u8| #[trigger] uint_at(bytes, v as nat) {
        let v = choose|v: u8| #[trigger] uint_at(bytes, v as nat);
        let n = rlp::rlp_uint(v as nat).len() as int;
        assert(bytes =~= bytes.subrange(0, n) + bytes.skip(n));
    }
}

/// What a list header decoder accepts starts with the header.
pub proof fn lemma_parse_list_header_canonical(bytes: Seq<u8>)
    ensures
        parse_list_header(bytes) matches Ok((n, rest)) ==> {
            &&& bytes == rlp::rlp_header(true, n as nat) + rest
            &&& n <= rest.len()
        },
{
    reveal(parse_list_header);
    if exists|n: usize| #[trigger] list_header_at(bytes, n as nat) {
        let n = choose|n: usize| #[trigger] list_header_at(bytes, n as nat);
        let k = rlp::rlp_header(true, n as nat).len() as int;
        assert(bytes =~= bytes.subrange(0, k) + bytes.skip(k));
    }
}

/// What a list decoder accepts starts with the list.
pub proof fn lemma_parse_list_canonical(bytes: Seq<u8>)
    ensures
        parse_list(bytes) matches Ok((payload, rest)) ==> bytes == rlp::rlp_list(payload) + rest,
{
    lemma_parse_list_header_canonical(bytes);
    if let Ok((n, tail)) = parse_list_header(bytes) {
        assert(tail =~= tail.take(n as int) + tail.skip(n as int));
        assert(bytes =~= rlp::rlp_list(tail.take(n as int)) + tail.skip(n as int));
    }
}

/// What a decoder of `u8` items accepts is the encoding of the items.
pub proof fn lemma_parse_u8_items_canonical(bytes: Seq<u8>)
    ensures
        parse_u8_items(bytes) matches Ok(s) ==> bytes == rlp::rlp_uint_items(s),
    decreases bytes.len(),
{
    if bytes.len() > 0 {
        lemma_parse_u8_canonical(bytes);
        if let Ok((v, rest)) = parse_u8(bytes) {
            assert(rlp::rlp_uint(v as nat).len() > 0);
            lemma_parse_u8_items_canonical(rest);
            if let Ok(tail) = parse_u8_items(rest) {
                assert((seq![v] + tail).skip(1) =~= tail);
            }
        }
    } else {
        assert(bytes =~= rlp::rlp_uint_items(Seq::empty()));
    }
}

/// What a byte vector decoder accepts starts with the encoding of the vector.
pub proof fn lemma_parse_byte_list_canonical(bytes: Seq<u8>)
    ensures
        parse_byte_list(bytes) matches Ok((s, rest)) ==> bytes == rlp::rlp_byte_list(s) + rest,
{
    reveal(parse_byte_list);
    lemma_parse_list_canonical(bytes);
    if let Ok((payload, rest)) = parse_list(bytes) {
        lemma_parse_u8_items_canonical(payload);
    }
}

/// Decodes a `u64`.
pub fn take_u64(bytes: &[u8]) -> (r: Result<(u64, &[u8]), RlpError>)
    ensures
        match r {
            Ok((v, rest)) => parse_u64(bytes@) == Ok::<(u64, Seq<u8>), RlpErrorView>((v, rest@)),
            Err(e) => parse_u64(bytes@) == Err::<(u64, Seq<u8>), RlpErrorView>(e@),
        },
{
    proof {
        reveal(parse_u64);
    }
    match codec_u64(bytes) {
        Ok((v, rest)) => {
            proof {
                let w = choose|w: u64| #[trigger] uint_at(bytes@, w as nat);
                rlp::lemma_uint_unique(v as nat, w as nat, bytes@);
            }
            Ok((v, rest))
        },
        Err(text) => Err(RlpError::Codec(text)),
    }
}

/// Decodes a `u128`.
pub fn take_u128(bytes: &[u8]) -> (r: Result<(u128, &[u8]), RlpError>)
    ensures
        match r {
            Ok((v, rest)) => parse_u128(bytes@) == Ok::<(u128, Seq<u8>), RlpErrorView>((v, rest@)),
            Err(e) => parse_u128(bytes@) == Err::<(u128, Seq<u8>), RlpErrorView>(e@),
        },
{
    proof {
        reveal(parse_u128);
    }
    match codec_u128(bytes) {
        Ok((v, rest)) => {
            proof {
                let w = choose|w: u128| #[trigger] uint_at(bytes@, w as nat);
                rlp::lemma_uint_unique(v as nat, w as nat, bytes@);
            }
            Ok((v, rest))
        },
        Err(text) => Err(RlpError::Codec(text)),
    }
}

/// Decodes a `u16`.
pub fn take_u16(bytes: &[u8]) -> (r: Result<(u16, &[u8]), RlpError>)
    ensures
        match r {
            Ok((v, rest)) => parse_u16(bytes@) == Ok::<(u16, Seq<u8>), RlpErrorView>((v, rest@)),
            Err(e) => parse_u16(bytes@) == Err::<(u16, Seq<u8>), RlpErrorView>(e@),
        },
{
    proof {
        reveal(parse_u16);
    }
    match codec_u16(bytes) {
        Ok((v, rest)) => {
            proof {
                let w = choose|w: u16| #[trigger] uint_at(bytes@, w as nat);
                rlp::lemma_uint_unique(v as nat, w as nat, bytes@);
            }
            Ok((v, rest))
        },
        Err(text) => Err(RlpError::Codec(text)),
    }
}

/// Decodes a `u8`.
pub fn take_u8(bytes: &[u8]) -> (r: Result<(u8, &[u8]), RlpError>)
    ensures
        match r {
            Ok((v, rest)) => parse_u8(bytes@) == Ok::<(u8, Seq<u8>), RlpErrorView>((v, rest@)),
            Err(e) => parse_u8(bytes@) == Err::<(u8, Seq<u8>), RlpErrorView>(e@),
        },
{
    proof {
        reveal(parse_u8);
    }
    match codec_u8(bytes) {
        Ok((v, rest)) => {
            proof {
                let w = choose|w: u8| #[trigger] uint_at(bytes@, w as nat);
                rlp::lemma_uint_unique(v as nat, w as nat, bytes@);
            }
            Ok((v, rest))
        },
        Err(text) => Err(RlpError::Codec(text)),
    }
}

/// Decodes a flag.
pub fn take_bool(bytes: &[u8]) -> (r: Result<(bool, &[u8]), RlpError>)
    ensures
        match r {
            Ok((v, rest)) => parse_bool(bytes@) == Ok::<(bool, Seq<u8>), RlpErrorView>((v, rest@)),
            Err(e) => parse_bool(bytes@) == Err::<(bool, Seq<u8>), RlpErrorView>(e@),
        },
{
    match take_u8(bytes) {
        Ok((v, rest)) => if v == 0 {
            Ok((false, rest))
        } else if v == 1 {
            Ok((true, rest))
        } else {
            Err(RlpError::InvalidBool)
        },
        Err(e) => Err(e),
    }
}

/// Decodes the header of a list.
pub fn take_list_header(bytes: &[u8]) -> (r: Result<(usize, &[u8]), RlpError>)
    ensures
        match r {
            Ok((n, rest)) => parse_list_header(bytes@) == Ok::<(usize, Seq<u8>), RlpErrorView>(
                (n, rest@),
            ),
            Err(e) => parse_list_header(bytes@) == Err::<(usize, Seq<u8>), RlpErrorView>(e@),
        },
{
    proof {
        reveal(parse_list_header);
    }
    match codec_header(bytes) {
        Ok((list, n, rest)) => {
            if list {
                proof {
                    let m = choose|m: usize| #[trigger] list_header_at(bytes@, m as nat);
                    rlp::lemma_header_unique(true, n as nat, true, m as nat, bytes@);
                }
                Ok((n, rest))
            } else {
                proof {
                    assert forall|m: usize| !#[trigger] list_header_at(bytes@, m as nat) by {
                        rlp::lemma_be_len_word(m as nat);
                        if list_header_at(bytes@, m as nat) {
                            assert(rlp::rlp_header(true, m as nat)[0] == bytes@[0]);
                        }
                    }
                }
                Err(RlpError::UnexpectedString)
            }
        },
        Err(text) => Err(RlpError::Codec(text)),
    }
}

/// Decodes a list into its payload.
pub fn take_list(bytes: &[u8]) -> (r: Result<(&[u8], &[u8]), RlpError>)
    ensures
        match r {
            Ok((payload, rest)) => parse_list(bytes@) == Ok::<(Seq<u8>, Seq<u8>), RlpErrorView>(
                (payload@, rest@),
            ),
            Err(e) => parse_list(bytes@) == Err::<(Seq<u8>, Seq<u8>), RlpErrorView>(e@),
        },
{
    match take_list_header(bytes) {
        Ok((n, rest)) => {
            proof {
                lemma_parse_list_header_canonical(bytes@);
            }
            let (payload, tail) = rest.split_at(n);
            assert(payload@ =~= rest@.take(n as int));
            assert(tail@ =~= rest@.skip(n as int));
            Ok((payload, tail))
        },
        Err(e) => Err(e),
    }
}

/// Decodes four bytes; `None` where no string of four bytes starts.
pub fn take_four_bytes(bytes: &[u8]) -> (r: Option<([u8; 4], &[u8])>)
    ensures
        match r {
            Some((v, rest)) => bytes@ == rlp::rlp_string(v@) + rest@,
            None => forall|v: [u8; 4], rest: Seq<u8>|
                bytes@ != #[trigger] (rlp::rlp_string(v@) + rest),
        },
{
    let r = codec_four_bytes(bytes);
    proof {
        match r {
            Some((v, rest)) => {
                assert(bytes@ =~= rlp::rlp_string(v@) + rest@);
            },
            None => {
                assert forall|v: [u8; 4], rest: Seq<u8>| bytes@ != #[trigger] (rlp::rlp_string(v@)
                    + rest) by {
                    if bytes@ == rlp::rlp_string(v@) + rest {
                        assert(rlp::rlp_string(v@) =~= bytes@.subrange(
                            0,
                            rlp::rlp_string(v@).len() as int,
                        ));
                    }
                }
            },
        }
    }
    r
}

/// Decodes a byte vector.
pub fn take_byte_list(bytes: &[u8]) -> (r: Result<(Vec<u8>, &[u8]), RlpError>)
    ensures
        match r {
            Ok((v, rest)) => parse_byte_list(bytes@) == Ok::<(Seq<u8>, Seq<u8>), RlpErrorView>(
                (v@, rest@),
            ),
            Err(e) => parse_byte_list(bytes@) == Err::<(Seq<u8>, Seq<u8>), RlpErrorView>(e@),
        },
{
    proof {
        reveal(parse_byte_list);
    }
    let (payload, rest) = match take_list(bytes) {
        Ok(split) => split,
        Err(e) => {
            return Err(e);
        },
    };
    let mut items: Vec<u8> = Vec::new();
    let mut left: &[u8] = payload;
    while left.len() > 0
        invariant
            parse_list(bytes@) == Ok::<(Seq<u8>, Seq<u8>), RlpErrorView>((payload@, rest@)),
            match parse_u8_items(left@) {
                Ok(tail) => parse_u8_items(payload@) == Ok::<Seq<u8>, RlpErrorView>(items@ + tail),
                Err(e) => parse_u8_items(payload@) == Err::<Seq<u8>, RlpErrorView>(e),
            },
        decreases left@.len(),
    {
        proof {
            lemma_parse_u8_canonical(left@);
        }
        match take_u8(left) {
            Ok((v, tail)) => {
                assert(rlp::rlp_uint(v as nat).len() > 0);
                proof {
                    if let Ok(after) = parse_u8_items(tail@) {
                        assert(items@ + (seq![v] + after) =~= items@.push(v) + after);
                    }
                }
                items.push(v);
                left = tail;
            },
            Err(e) => {
                proof {
                    reveal(parse_byte_list);
                }
                return Err(e);
            },
        }
    }
    assert(items@ + Seq::<u8>::empty() =~= items@);
    Ok((items, rest))
}

/// Wraps an encoded payload into a list.
pub fn encode_list(payload: Vec<u8>) -> (out: Vec<u8>)
    ensures
        out@ == rlp::rlp_list(payload@),
{
    let mut tail: Vec<u8> = payload;
    let mut out: Vec<u8> = encode_list_header(tail.len());
    out.append(&mut tail);
    out
}

/// Encodes a byte vector as a list of integers.
pub fn encode_byte_list(bytes: &[u8]) -> (out: Vec<u8>)
    ensures
        out@ == rlp::rlp_byte_list(bytes@),
{
    let mut payload: Vec<u8> = Vec::new();
    let mut i: usize = 0;
    assert(bytes@.take(0) =~= Seq::<u8>::empty());
    while i < bytes.len()
        invariant
            i <= bytes@.len(),
            payload@ == rlp::rlp_uint_items(bytes@.take(i as int)),
        decreases bytes@.len() - i,
    {
        proof {
            rlp::lemma_uint_items_push(bytes@.take(i as int), bytes@[i as int]);
            assert(bytes@.take(i + 1) =~= bytes@.take(i as int).push(bytes@[i as int]));
        }
        let mut item: Vec<u8> = encode_u64(bytes[i] as u64);
        payload.append(&mut item);
        i = i + 1;
    }
    assert(bytes@.take(bytes@.len() as int) =~= bytes@);
    encode_list(payload)
}

/// Decodes a list of at most `limit` byte vectors.
pub fn take_byte_lists(bytes: &[u8], limit: usize) -> (r: Result<(Vec<Vec<u8>>, &[u8]), RlpError>)
    ensures
        match r {
            Ok((v, rest)) => parse_byte_lists(bytes@, limit as nat) == Ok::<
                (Seq<Seq<u8>>, Seq<u8>),
                RlpErrorView,
            >((cosmos_types::tx_views(v@), rest@)),
            Err(e) => parse_byte_lists(bytes@, limit as nat) == Err::<
                (Seq<Seq<u8>>, Seq<u8>),
                RlpErrorView,
            >(e@),
        },
{
    proof {
        reveal(parse_byte_lists);
    }
    let (payload, rest) = match take_list(bytes) {
        Ok(split) => split,
        Err(e) => {
            return Err(e);
        },
    };
    let mut items: Vec<Vec<u8>> = Vec::new();
    let mut left: &[u8] = payload;
    assert(cosmos_types::tx_views(items@) =~= Seq::<Seq<u8>>::empty());
    proof {
        if let Ok(all) = parse_byte_list_items(payload@, limit as nat) {
            assert(Seq::<Seq<u8>>::empty() + all =~= all);
        }
    }
    while left.len() > 0
        invariant
            items@.len() <= limit,
            parse_list(bytes@) == Ok::<(Seq<u8>, Seq<u8>), RlpErrorView>((payload@, rest@)),
            match parse_byte_list_items(left@, (limit - items@.len()) as nat) {
                Ok(tail) => parse_byte_list_items(payload@, limit as nat) == Ok::<
                    Seq<Seq<u8>>,
                    RlpErrorView,
                >(cosmos_types::tx_views(items@) + tail),
                Err(e) => parse_byte_list_items(payload@, limit as nat) == Err::<
                    Seq<Seq<u8>>,
                    RlpErrorView,
                >(e),
            },
        decreases left@.len(),
    {
        if items.len() >= limit {
            proof {
                reveal(parse_byte_lists);
            }
            return Err(RlpError::Custom("list exceeds its limit"));
        }
        proof {
            lemma_parse_byte_list_canonical(left@);
        }
        match take_byte_list(left) {
            Ok((v, tail)) => {
                assert(rlp::rlp_byte_list(v@).len() > 0);
                let ghost before = cosmos_types::tx_views(items@);
                let ghost view = v@;
                items.push(v);
                proof {
                    assert(cosmos_types::tx_views(items@) =~= before.push(view));
                    if let Ok(after) = parse_byte_list_items(
                        tail@,
                        (limit - items@.len()) as nat,
                    ) {
                        assert(before + (seq![view] + after) =~= before.push(view) + after);
                    }
                }
                left = tail;
            },
            Err(e) => {
                proof {
                    reveal(parse_byte_lists);
                }
                return Err(e);
            },
        }
    }
    proof {
        let all = cosmos_types::tx_views(items@);
        assert(all + Seq::<Seq<u8>>::empty() =~= all);
    }
    Ok((items, rest))
}

/// Encodes byte vectors as a list.
pub fn encode_byte_lists(items: &Vec<Vec<u8>>) -> (out: Vec<u8>)
    ensures
        out@ == rlp::rlp_byte_lists(cosmos_types::tx_views(items@)),
{
    let ghost views = cosmos_types::tx_views(items@);
    let mut payload: Vec<u8> = Vec::new();
    let mut i: usize = 0;
    assert(views.take(0) =~= Seq::<Seq<u8>>::empty());
    while i < items.len()
        invariant
            i <= items@.len(),
            views == cosmos_types::tx_views(items@),
            payload@ == rlp::rlp_byte_list_items(views.take(i as int)),
        decreases items@.len() - i,
    {
        proof {
            rlp::lemma_byte_list_items_push(views.take(i as int), views[i as int]);
            assert(views.take(i + 1) =~= views.take(i as int).push(views[i as int]));
        }
        let mut item: Vec<u8> = encode_byte_list(items[i].as_slice());
        payload.append(&mut item);
        i = i + 1;
    }
    assert(views.take(i as int) =~= views);
    encode_list(payload)
}

proof fn lemma_too_many_items(s: Seq<Seq<u8>>, limit: nat)
    requires
        s.len() > limit,
        rlp::rlp_byte_list_items(s).len() <= usize::MAX,
    ensures
        parse_byte_list_items(rlp::rlp_byte_list_items(s), limit) == Err::<
            Seq<Seq<u8>>,
            RlpErrorView,
        >(RlpErrorView::Custom("list exceeds its limit"@)),
    decreases s.len(),
{
    let rest = rlp::rlp_byte_list_items(s.skip(1));
    assert(rlp::rlp_byte_list_items(s) == rlp::rlp_byte_list(s[0]) + rest);
    assert(rlp::rlp_byte_list(s[0]).len() > rlp::rlp_uint_items(s[0]).len());
    if limit > 0 {
        lemma_parse_byte_list(s[0], rest);
        lemma_too_many_items(s.skip(1), (limit - 1) as nat);
    }
}

/// A list of byte lists is read if and only if it is not longer than its limit.
pub proof fn long_lists_are_refused(s: Seq<Seq<u8>>, limit: nat, rest: Seq<u8>)
    requires
        rlp::rlp_byte_list_items(s).len() <= usize::MAX,
    ensures
        parse_byte_lists(rlp::rlp_byte_lists(s) + rest, limit) == if s.len() <= limit {
            Ok::<(Seq<Seq<u8>>, Seq<u8>), RlpErrorView>((s, rest))
        } else {
            Err::<(Seq<Seq<u8>>, Seq<u8>), RlpErrorView>(
                RlpErrorView::Custom("list exceeds its limit"@),
            )
        },
{
    reveal(parse_byte_lists);
    lemma_parse_list(rlp::rlp_byte_list_items(s), rest);
    if s.len() <= limit {
        lemma_parse_byte_list_items(s, limit);
    } else {
        lemma_too_many_items(s, limit);
    }
}

/// A flag is zero for no and one for yes; no other number is a flag.
pub proof fn flags_are_zero_or_one(v: u8, rest: Seq<u8>)
    ensures
        parse_bool(rlp::rlp_uint(v as nat) + rest) == if v == 0 {
            Ok::<(bool, Seq<u8>), RlpErrorView>((false, rest))
        } else if v == 1 {
            Ok::<(bool, Seq<u8>), RlpErrorView>((true, rest))
        } else {
            Err::<(bool, Seq<u8>), RlpErrorView>(RlpErrorView::InvalidBool)
        },
{
    lemma_parse_u8(v, rest);
}

} // verus!
