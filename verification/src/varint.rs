//! LEB128 length prefixes of the ABCI socket protocol.
use vstd::prelude::*;

verus! {

/// Most bytes a length prefix can occupy: ten groups of seven bits cover a `u64`.
pub const MAX_VARINT_LEN: usize = 10;

/// The canonical LEB128 encoding of `value`: seven bits per byte, least
/// significant group first, high bit set on every byte but the last.
pub open spec fn varint_bytes(value: nat) -> Seq<u8>
    decreases value,
{
    if value < 128 {
        seq![value as u8]
    } else {
        seq![(value % 128 + 128) as u8] + varint_bytes(value / 128)
    }
}

/// The number that a run of seven-bit groups stands for.
pub open spec fn varint_value(bytes: Seq<u8>) -> nat
    decreases bytes.len(),
{
    if bytes.len() == 0 {
        0
    } else {
        (bytes[0] % 128) as nat + 128 * varint_value(bytes.skip(1))
    }
}

/// Whether the byte at `last` is the first one whose high bit is clear.
pub open spec fn varint_ends_at(bytes: Seq<u8>, last: int) -> bool {
    &&& 0 <= last < bytes.len()
    &&& bytes[last] < 128
    &&& forall|j: int| 0 <= j < last ==> #[trigger] bytes[j] >= 128
}

/// What a decoder makes of the bytes received so far.
pub enum VarintStep {
    /// The prefix is complete: its value and the number of bytes it took.
    Done { value: u64, consumed: usize },
    /// Every byte so far has its high bit set and more may follow.
    NeedMore,
    /// Ten bytes came without a final one.
    Invalid,
}

pub open spec fn pow128(i: nat) -> nat
    decreases i,
{
    if i == 0 {
        1
    } else {
        128 * pow128((i - 1) as nat)
    }
}

proof fn lemma_varint_value_push(bytes: Seq<u8>, b: u8)
    ensures
        varint_value(bytes.push(b)) == varint_value(bytes) + (b % 128) as nat * pow128(bytes.len()),
    decreases bytes.len(),
{
    reveal_with_fuel(varint_value, 2);
    if bytes.len() == 0 {
        assert(bytes.push(b).skip(1) =~= Seq::<u8>::empty());
        assert((b % 128) as nat * 1nat == (b % 128) as nat) by (nonlinear_arith);
    } else {
        lemma_varint_value_push(bytes.skip(1), b);
        assert(bytes.push(b).skip(1) =~= bytes.skip(1).push(b));
        let d = (b % 128) as nat;
        let p = pow128((bytes.len() - 1) as nat);
        assert(pow128(bytes.len()) == 128 * p);
        assert(128 * (d * p) == d * (128 * p)) by (nonlinear_arith);
        let tail = varint_value(bytes.skip(1));
        assert(128 * (tail + d * p) == 128 * tail + 128 * (d * p)) by (nonlinear_arith);
    }
}

/// Decoding the groups of an encoded number gives the number back.
pub proof fn varint_roundtrip(value: nat)
    ensures
        varint_value(varint_bytes(value)) == value,
        varint_ends_at(varint_bytes(value), varint_bytes(value).len() - 1),
    decreases value,
{
    reveal_with_fuel(varint_value, 2);
    if value < 128 {
        assert(varint_bytes(value).skip(1) =~= Seq::<u8>::empty());
    } else {
        varint_roundtrip(value / 128);
        let head = seq![(value % 128 + 128) as u8];
        let tail = varint_bytes(value / 128);
        assert((head + tail).skip(1) =~= tail);
        assert forall|j: int| 0 <= j < (head + tail).len() - 1 implies #[trigger] (head
            + tail)[j] >= 128 by {
            if j > 0 {
                assert((head + tail)[j] == tail[j - 1]);
            }
        }
    }
}

/// The encoding of a number below `128^n` has at most `n` bytes.
proof fn lemma_varint_len(value: nat, n: nat)
    requires
        value < pow128(n),
        n >= 1,
    ensures
        1 <= varint_bytes(value).len() <= n,
    decreases n,
{
    if value >= 128 {
        assert(n >= 2) by {
            reveal_with_fuel(pow128, 3);
        }
        lemma_varint_len(value / 128, (n - 1) as nat);
    }
}

proof fn lemma_pow128_ten()
    ensures
        pow128(10) == 0x40_0000_0000_0000_0000,
        pow128(9) == 0x8000_0000_0000_0000,
{
    reveal_with_fuel(pow128, 12);
}

proof fn lemma_pow128_monotone(i: nat, j: nat)
    requires
        i <= j,
    ensures
        0 < pow128(i) <= pow128(j),
    decreases j,
{
    if i < j {
        lemma_pow128_monotone(i, (j - 1) as nat);
    } else if i > 0 {
        lemma_pow128_monotone((i - 1) as nat, (i - 1) as nat);
    }
}

/// Every 64-bit number has a prefix of one to ten bytes that decodes to it.
pub proof fn varint_fits(value: u64)
    ensures
        1 <= varint_bytes(value as nat).len() <= MAX_VARINT_LEN,
        varint_value(varint_bytes(value as nat)) == value,
        varint_ends_at(varint_bytes(value as nat), varint_bytes(value as nat).len() - 1),
{
    lemma_pow128_ten();
    lemma_varint_len(value as nat, 10);
    varint_roundtrip(value as nat);
}

/// Encodes a message length as a LEB128 prefix.
pub fn encode_varint(value: usize) -> (out: Vec<u8>)
    ensures
        out@ == varint_bytes(value as nat),
{
    let mut out: Vec<u8> = Vec::new();
    let mut rest: usize = value;
    while rest >= 128
        invariant
            out@ + varint_bytes(rest as nat) == varint_bytes(value as nat),
        decreases rest,
    {
        let ghost before = out@;
        out.push((rest % 128 + 128) as u8);
        assert(out@ + varint_bytes((rest / 128) as nat) =~= before + (seq![
            (rest % 128 + 128) as u8,
        ] + varint_bytes((rest / 128) as nat)));
        rest = rest / 128;
    }
    out.push(rest as u8);
    out
}

/// Reads a LEB128 prefix from the start of `bytes`.
///
/// Encodings longer than necessary are accepted, and bits beyond the width of
/// a `u64` in the tenth byte are dropped.
pub fn decode_varint(bytes: &[u8]) -> (step: VarintStep)
    ensures
        match step {
            VarintStep::Done { value, consumed } => {
                &&& 1 <= consumed <= MAX_VARINT_LEN
                &&& varint_ends_at(bytes@, consumed - 1)
                &&& value == varint_value(bytes@.take(consumed as int)) % 0x1_0000_0000_0000_0000
            },
            VarintStep::NeedMore => {
                &&& bytes@.len() < MAX_VARINT_LEN
                &&& forall|j: int| 0 <= j < bytes@.len() ==> #[trigger] bytes@[j] >= 128
            },
            VarintStep::Invalid => {
                &&& bytes@.len() >= MAX_VARINT_LEN
                &&& forall|j: int| 0 <= j < MAX_VARINT_LEN ==> #[trigger] bytes@[j] >= 128
            },
        },
{
    let mut acc: u128 = 0;
    let mut scale: u128 = 1;
    let mut i: usize = 0;
    assert(bytes@.take(0) =~= Seq::<u8>::empty());
    while i < bytes.len() && i < MAX_VARINT_LEN
        invariant
            i <= bytes@.len(),
            i <= MAX_VARINT_LEN,
            scale == pow128(i as nat),
            acc == varint_value(bytes@.take(i as int)),
            acc < scale,
            scale <= 0x40_0000_0000_0000_0000,
            forall|j: int| 0 <= j < i ==> #[trigger] bytes@[j] >= 128,
        decreases bytes@.len() - i,
    {
        let group: u128 = (bytes[i] % 128) as u128;
        proof {
            lemma_pow128_ten();
            lemma_pow128_monotone(i as nat, 9);
            lemma_pow128_monotone(i as nat + 1, 10);
            lemma_varint_value_push(bytes@.take(i as int), bytes@[i as int]);
            assert(bytes@.take(i + 1) =~= bytes@.take(i as int).push(bytes@[i as int]));
            assert(group * scale <= 127 * scale) by (nonlinear_arith)
                requires
                    group <= 127,
            ;
        }
        acc = acc + group * scale;
        if bytes[i] < 128 {
            return VarintStep::Done {
                value: (acc % 0x1_0000_0000_0000_0000) as u64,
                consumed: i + 1,
            };
        }
        scale = scale * 128;
        i = i + 1;
    }
    if i < MAX_VARINT_LEN {
        VarintStep::NeedMore
    } else {
        VarintStep::Invalid
    }
}

/// A number is written seven bits to a byte, the least significant ones first,
/// with the highest bit set on every byte but the last.
pub proof fn low_bits_come_first(value: nat)
    ensures
        value < 128 ==> varint_bytes(value) == seq![value as u8],
        value >= 128 ==> varint_bytes(value)[0] == value % 128 + 128 && varint_bytes(value).skip(1)
            == varint_bytes(value / 128),
        MAX_VARINT_LEN == 10,
{
    if value >= 128 {
        assert(varint_bytes(value).skip(1) =~= varint_bytes(value / 128));
    }
}

/// A byte more in front adds its seven low bits, and puts the rest seven bits
/// higher.
pub proof fn low_bits_are_read_first(b: u8, rest: Seq<u8>)
    ensures
        varint_value(seq![b] + rest) == (b & 0x7f) + 128 * varint_value(rest),
        varint_value(Seq::empty()) == 0,
{
    assert((seq![b] + rest).skip(1) =~= rest);
    assert(b & 0x7f == b % 128) by (bit_vector);
}

} // verus!
