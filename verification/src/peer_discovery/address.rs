//! IPv4 addresses and sockets, and their text.
use vstd::prelude::*;

use crate::text;

verus! {

/// An IPv4 address.
#[derive(Clone, Copy, Debug, PartialEq, Eq, Hash, Structural)]
pub struct Ipv4Addr {
    pub a: u8,
    pub b: u8,
    pub c: u8,
    pub d: u8,
}

/// An IPv4 address with a port.
#[derive(Clone, Copy, Debug, PartialEq, Eq, Hash, Structural)]
pub struct SocketAddrV4 {
    pub ip: Ipv4Addr,
    pub port: u16,
}

/// An IPv6 address and a port, with the flow and the scope that belong to them.
#[derive(Clone, Copy, Debug, PartialEq, Eq, Hash)]
pub struct SocketAddrV6 {
    pub octets: [u8; 16],
    pub port: u16,
    pub flowinfo: u32,
    pub scope_id: u32,
}

/// An address and a port of either version.
#[derive(Clone, Copy, Debug, PartialEq, Eq, Hash)]
pub enum SocketAddr {
    V4(SocketAddrV4),
    V6(SocketAddrV6),
}

/// The dotted decimal form of an address.
pub open spec fn ip_text(ip: Ipv4Addr) -> Seq<char> {
    text::decimal_text(ip.a as nat).push('.') + (text::decimal_text(ip.b as nat).push('.') + (
    text::decimal_text(ip.c as nat).push('.') + text::decimal_text(ip.d as nat)))
}

/// The address in dotted decimal form and the port behind a colon.
pub open spec fn socket_text(socket: SocketAddrV4) -> Seq<char> {
    ip_text(socket.ip).push(':') + text::decimal_text(socket.port as nat)
}

/// The address that a text denotes: the one whose dotted decimal form it is.
pub open spec fn ip_of_text(s: Seq<char>) -> Option<Ipv4Addr> {
    if exists|ip: Ipv4Addr| s == #[trigger] ip_text(ip) {
        Some(choose|ip: Ipv4Addr| s == #[trigger] ip_text(ip))
    } else {
        None
    }
}

/// Whether a text is an address in dotted decimal form, a colon and the digits
/// of a port. The port may have leading zeros.
pub open spec fn denotes_socket(s: Seq<char>, ip: Ipv4Addr, digits: Seq<char>) -> bool {
    &&& s == ip_text(ip).push(':') + digits
    &&& text::digits_value(digits) matches Some(n) && n <= u16::MAX
}

/// The socket that a text denotes.
pub open spec fn socket_of_text(s: Seq<char>) -> Option<SocketAddrV4> {
    if exists|ip: Ipv4Addr, digits: Seq<char>| #[trigger] denotes_socket(s, ip, digits) {
        let (ip, digits) = choose|ip: Ipv4Addr, digits: Seq<char>| #[trigger]
            denotes_socket(s, ip, digits);
        Some(SocketAddrV4 { ip, port: text::decimal_value(digits) as u16 })
    } else {
        None
    }
}

/// How many digits a text starts with.
spec fn run(s: Seq<char>) -> nat
    decreases s.len(),
{
    if s.len() > 0 && text::is_digit(s[0]) {
        1 + run(s.skip(1))
    } else {
        0
    }
}

/// The number below 256 that a text starts with, and what follows it.
spec fn octet_at(s: Seq<char>) -> Option<(u8, Seq<char>)> {
    let n = run(s) as int;
    if n > 0 && (n == 1 || s[0] != '0') && text::decimal_value(s.take(n)) <= 255 {
        Some((text::decimal_value(s.take(n)) as u8, s.skip(n)))
    } else {
        None
    }
}

/// The number below 256 and the dot that a text starts with.
spec fn dotted_at(s: Seq<char>) -> Option<(u8, Seq<char>)> {
    match octet_at(s) {
        Some((v, rest)) => if rest.len() > 0 && rest[0] == '.' {
            Some((v, rest.skip(1)))
        } else {
            None
        },
        None => None,
    }
}

/// The address that a text starts with, and what follows it.
spec fn ip_at(s: Seq<char>) -> Option<(Ipv4Addr, Seq<char>)> {
    match dotted_at(s) {
        None => None,
        Some((a, s)) => match dotted_at(s) {
            None => None,
            Some((b, s)) => match dotted_at(s) {
                None => None,
                Some((c, s)) => match octet_at(s) {
                    None => None,
                    Some((d, rest)) => Some((Ipv4Addr { a, b, c, d }, rest)),
                },
            },
        },
    }
}

spec fn no_digit_first(s: Seq<char>) -> bool {
    s.len() == 0 || !text::is_digit(s[0])
}

proof fn lemma_run(digits: Seq<char>, rest: Seq<char>)
    requires
        text::all_digits(digits),
        no_digit_first(rest),
    ensures
        run(digits + rest) == digits.len(),
    decreases digits.len(),
{
    if digits.len() == 0 {
        assert(digits + rest =~= rest);
    } else {
        assert((digits + rest).skip(1) =~= digits.skip(1) + rest);
        lemma_run(digits.skip(1), rest);
    }
}

proof fn lemma_run_bounds(s: Seq<char>)
    ensures
        run(s) <= s.len(),
        text::all_digits(s.take(run(s) as int)),
        no_digit_first(s.skip(run(s) as int)),
    decreases s.len(),
{
    if s.len() > 0 && text::is_digit(s[0]) {
        lemma_run_bounds(s.skip(1));
        let n = run(s) as int;
        assert(s.skip(1).skip(n - 1) =~= s.skip(n));
        assert forall|i: int| 0 <= i < n implies text::is_digit(#[trigger] s.take(n)[i]) by {
            if i > 0 {
                assert(s.take(n)[i] == s.skip(1).take(n - 1)[i - 1]);
            }
        }
    } else {
        assert(s.skip(0) =~= s);
    }
}

/// A run of digits without a leading zero is the decimal form of its value.
proof fn lemma_canonical(s: Seq<char>)
    requires
        s.len() > 0,
        text::all_digits(s),
        s.len() == 1 || s[0] != '0',
    ensures
        text::decimal_text(text::decimal_value(s)) == s,
        s.len() > 1 ==> text::decimal_value(s) >= 10,
    decreases s.len(),
{
    reveal_with_fuel(text::decimal_value, 2);
    let last = s.last();
    assert(text::is_digit(last));
    if s.len() == 1 {
        assert(s.drop_last() =~= Seq::<char>::empty());
        assert(text::decimal_text(text::decimal_value(s)) =~= s);
    } else {
        let head = s.drop_last();
        assert(head[0] == s[0]);
        assert forall|i: int| 0 <= i < head.len() implies text::is_digit(#[trigger] head[i]) by {
            assert(text::is_digit(s[i]));
        }
        lemma_canonical(head);
        let v = text::decimal_value(head);
        if head.len() == 1 {
            assert(head.drop_last() =~= Seq::<char>::empty());
            assert(v == text::digit_value(head[0]));
            assert(text::is_digit(s[0]));
            assert(v > 0);
        }
        let n = text::decimal_value(s);
        assert(n == v * 10 + text::digit_value(last));
        assert(n / 10 == v && n % 10 == text::digit_value(last));
        assert(text::decimal_text(n) =~= s);
    }
}

proof fn lemma_octet(v: u8, rest: Seq<char>)
    requires
        no_digit_first(rest),
    ensures
        octet_at(text::decimal_text(v as nat) + rest) == Some((v, rest)),
{
    let digits = text::decimal_text(v as nat);
    let s = digits + rest;
    text::lemma_decimal_text(v as nat);
    lemma_run(digits, rest);
    assert(s.take(digits.len() as int) =~= digits);
    assert(s.skip(digits.len() as int) =~= rest);
    if v == 0 {
        assert(digits.len() == 1);
    }
    assert(s[0] == digits[0]);
}

proof fn lemma_octet_sound(s: Seq<char>)
    ensures
        octet_at(s) matches Some((v, rest)) ==> s == text::decimal_text(v as nat) + rest
            && no_digit_first(rest),
{
    if let Some((v, rest)) = octet_at(s) {
        let n = run(s) as int;
        lemma_run_bounds(s);
        assert(s.take(n)[0] == s[0]);
        lemma_canonical(s.take(n));
        assert(s =~= s.take(n) + s.skip(n));
    }
}

proof fn lemma_dotted(v: u8, rest: Seq<char>)
    ensures
        dotted_at(text::decimal_text(v as nat).push('.') + rest) == Some((v, rest)),
{
    let digits = text::decimal_text(v as nat);
    let tail = seq!['.'] + rest;
    assert(digits.push('.') + rest =~= digits + tail);
    lemma_octet(v, tail);
    assert(tail.skip(1) =~= rest);
}

proof fn lemma_dotted_sound(s: Seq<char>)
    ensures
        dotted_at(s) matches Some((v, rest)) ==> s == text::decimal_text(v as nat).push('.')
            + rest,
{
    lemma_octet_sound(s);
    if let Some((v, rest)) = octet_at(s) {
        if rest.len() > 0 && rest[0] == '.' {
            assert(s =~= text::decimal_text(v as nat).push('.') + rest.skip(1));
        }
    }
}

proof fn lemma_ip(ip: Ipv4Addr, rest: Seq<char>)
    requires
        no_digit_first(rest),
    ensures
        ip_at(ip_text(ip) + rest) == Some((ip, rest)),
{
    let a = text::decimal_text(ip.a as nat).push('.');
    let b = text::decimal_text(ip.b as nat).push('.');
    let c = text::decimal_text(ip.c as nat).push('.');
    let d = text::decimal_text(ip.d as nat);
    assert(ip_text(ip) + rest =~= a + (b + (c + (d + rest))));
    lemma_dotted(ip.a, b + (c + (d + rest)));
    lemma_dotted(ip.b, c + (d + rest));
    lemma_dotted(ip.c, d + rest);
    lemma_octet(ip.d, rest);
}

proof fn lemma_ip_sound(s: Seq<char>)
    ensures
        ip_at(s) matches Some((ip, rest)) ==> s == ip_text(ip) + rest,
{
    lemma_dotted_sound(s);
    if let Some((a, s1)) = dotted_at(s) {
        lemma_dotted_sound(s1);
        if let Some((b, s2)) = dotted_at(s1) {
            lemma_dotted_sound(s2);
            if let Some((c, s3)) = dotted_at(s2) {
                lemma_octet_sound(s3);
                if let Some((d, rest)) = octet_at(s3) {
                    let ip = Ipv4Addr { a, b, c, d };
                    assert(s =~= ip_text(ip) + rest);
                }
            }
        }
    }
}

/// Different addresses have different texts.
pub proof fn ip_text_is_injective(x: Ipv4Addr, y: Ipv4Addr)
    requires
        ip_text(x) == ip_text(y),
    ensures
        x == y,
{
    let none = Seq::<char>::empty();
    assert(ip_text(x) + none =~= ip_text(x));
    lemma_ip(x, none);
    lemma_ip(y, none);
}

/// An address is read back from its text.
pub proof fn ip_roundtrip(ip: Ipv4Addr)
    ensures
        ip_of_text(ip_text(ip)) == Some(ip),
{
    let other = choose|other: Ipv4Addr| ip_text(ip) == #[trigger] ip_text(other);
    ip_text_is_injective(ip, other);
}

proof fn lemma_socket_unique(
    s: Seq<char>,
    x: Ipv4Addr,
    x_digits: Seq<char>,
    y: Ipv4Addr,
    y_digits: Seq<char>,
)
    requires
        denotes_socket(s, x, x_digits),
        denotes_socket(s, y, y_digits),
    ensures
        x == y,
        x_digits == y_digits,
{
    let x_tail = seq![':'] + x_digits;
    let y_tail = seq![':'] + y_digits;
    assert(s =~= ip_text(x) + x_tail);
    assert(s =~= ip_text(y) + y_tail);
    lemma_ip(x, x_tail);
    lemma_ip(y, y_tail);
    assert(x_tail.skip(1) =~= x_digits);
    assert(y_tail.skip(1) =~= y_digits);
}

/// A socket is read back from its text.
pub proof fn socket_roundtrip(socket: SocketAddrV4)
    ensures
        socket_of_text(socket_text(socket)) == Some(socket),
{
    let s = socket_text(socket);
    let digits = text::decimal_text(socket.port as nat);
    text::lemma_decimal_text(socket.port as nat);
    assert(denotes_socket(s, socket.ip, digits));
    let (ip, other) = choose|ip: Ipv4Addr, other: Seq<char>| #[trigger]
        denotes_socket(s, ip, other);
    lemma_socket_unique(s, socket.ip, digits, ip, other);
}

/// The text of an address is not that of a socket.
pub proof fn ip_text_is_no_socket(ip: Ipv4Addr)
    ensures
        socket_of_text(ip_text(ip)) is None,
{
    let s = ip_text(ip);
    let none = Seq::<char>::empty();
    assert forall|other: Ipv4Addr, digits: Seq<char>| !#[trigger]
        denotes_socket(s, other, digits) by {
        if denotes_socket(s, other, digits) {
            let tail = seq![':'] + digits;
            assert(s =~= ip_text(other) + tail);
            assert(s =~= ip_text(ip) + none);
            lemma_ip(other, tail);
            lemma_ip(ip, none);
        }
    }
}

fn take_octet(chars: &[char], start: usize) -> (r: Option<(u8, usize)>)
    requires
        start <= chars@.len(),
    ensures
        match r {
            Some((v, end)) => start < end <= chars@.len() && octet_at(chars@.skip(start as int))
                == Some((v, chars@.skip(end as int))),
            None => octet_at(chars@.skip(start as int)) is None,
        },
{
    let ghost s = chars@.skip(start as int);
    let mut end: usize = start;
    let mut value: u32 = 0;
    assert(s.take(0) =~= Seq::<char>::empty());
    assert(s.skip(0) =~= s);
    while end < chars.len() && '0' <= chars[end] && chars[end] <= '9'
        invariant
            start <= end <= chars@.len(),
            s == chars@.skip(start as int),
            run(s) == (end - start) + run(s.skip(end - start)),
            value == if text::decimal_value(s.take(end - start)) < 256 {
                text::decimal_value(s.take(end - start)) as u32
            } else {
                256u32
            },
        decreases chars@.len() - end,
    {
        let c: char = chars[end];
        let ghost k = end - start;
        proof {
            assert(s[k] == c);
            assert(s.skip(k)[0] == c);
            assert(s.skip(k).skip(1) =~= s.skip(k + 1));
            assert(s.take(k + 1).drop_last() =~= s.take(k));
            assert(s.take(k + 1).last() == c);
        }
        let next: u32 = value * 10 + (c as u32 - '0' as u32);
        value = if next < 256 {
            next
        } else {
            256
        };
        end = end + 1;
    }
    let ghost n = end - start;
    proof {
        if end < chars@.len() {
            assert(s.skip(n)[0] == chars@[end as int]);
        }
        assert(run(s) == n);
        assert(s.skip(n) =~= chars@.skip(end as int));
        if n > 0 {
            assert(s[0] == chars@[start as int]);
        }
    }
    if end == start || (end - start > 1 && chars[start] == '0') || value > 255 {
        return None;
    }
    Some((value as u8, end))
}

fn take_dotted(chars: &[char], start: usize) -> (r: Option<(u8, usize)>)
    requires
        start <= chars@.len(),
    ensures
        match r {
            Some((v, end)) => start < end <= chars@.len() && dotted_at(chars@.skip(start as int))
                == Some((v, chars@.skip(end as int))),
            None => dotted_at(chars@.skip(start as int)) is None,
        },
{
    match take_octet(chars, start) {
        Some((v, end)) => if end < chars.len() && chars[end] == '.' {
            assert(chars@.skip(end as int).skip(1) =~= chars@.skip(end + 1));
            Some((v, end + 1))
        } else {
            None
        },
        None => None,
    }
}

fn take_ip(chars: &[char]) -> (r: Option<(Ipv4Addr, usize)>)
    ensures
        match r {
            Some((ip, end)) => end <= chars@.len() && ip_at(chars@) == Some(
                (ip, chars@.skip(end as int)),
            ),
            None => ip_at(chars@) is None,
        },
{
    assert(chars@.skip(0) =~= chars@);
    let (a, at) = match take_dotted(chars, 0) {
        Some(t) => t,
        None => {
            return None;
        },
    };
    let (b, at) = match take_dotted(chars, at) {
        Some(t) => t,
        None => {
            return None;
        },
    };
    let (c, at) = match take_dotted(chars, at) {
        Some(t) => t,
        None => {
            return None;
        },
    };
    match take_octet(chars, at) {
        Some((d, end)) => Some((Ipv4Addr { a, b, c, d }, end)),
        None => None,
    }
}

impl Ipv4Addr {
    /// The four bytes of the address.
    pub open spec fn bytes(self) -> Seq<u8> {
        seq![self.a, self.b, self.c, self.d]
    }

    pub fn new(a: u8, b: u8, c: u8, d: u8) -> (r: Self)
        ensures
            r == (Ipv4Addr { a, b, c, d }),
    {
        Ipv4Addr { a, b, c, d }
    }

    /// The four bytes of the address.
    pub fn octets(&self) -> (r: [u8; 4])
        ensures
            r@ == self.bytes(),
    {
        let r: [u8; 4] = [self.a, self.b, self.c, self.d];
        assert(r@ =~= self.bytes());
        r
    }

    /// Reads an address in dotted decimal form, without leading zeros.
    pub fn parse(s: &str) -> (r: Option<Self>)
        ensures
            r == ip_of_text(s@),
    {
        let chars: Vec<char> = text::chars_of(s);
        let found: Option<(Ipv4Addr, usize)> = take_ip(chars.as_slice());
        proof {
            lemma_ip_sound(s@);
            if exists|ip: Ipv4Addr| s@ == #[trigger] ip_text(ip) {
                let ip = choose|ip: Ipv4Addr| s@ == #[trigger] ip_text(ip);
                let none = Seq::<char>::empty();
                assert(s@ =~= ip_text(ip) + none);
                lemma_ip(ip, none);
            }
        }
        match found {
            Some((ip, end)) => if end == chars.len() {
                assert(s@ =~= ip_text(ip));
                Some(ip)
            } else {
                assert(chars@.skip(end as int).len() > 0);
                None
            },
            None => None,
        }
    }

    /// The dotted decimal form.
    pub fn text(&self) -> (out: String)
        ensures
            out@ == ip_text(*self),
    {
        let mut out: String = text::format_u64(self.a as u64);
        out.push('.');
        text::push_decimal(&mut out, self.b as u64);
        out.push('.');
        text::push_decimal(&mut out, self.c as u64);
        out.push('.');
        text::push_decimal(&mut out, self.d as u64);
        assert(out@ =~= ip_text(*self));
        out
    }
}

impl SocketAddrV4 {
    pub fn new(ip: Ipv4Addr, port: u16) -> (r: Self)
        ensures
            r == (SocketAddrV4 { ip, port }),
    {
        SocketAddrV4 { ip, port }
    }

    /// Reads an address and a port behind a colon.
    pub fn parse(s: &str) -> (r: Option<Self>)
        ensures
            r == socket_of_text(s@),
    {
        let chars: Vec<char> = text::chars_of(s);
        proof {
            assert forall|ip: Ipv4Addr, digits: Seq<char>| #[trigger]
                denotes_socket(s@, ip, digits) implies ip_at(s@) == Some(
                (ip, seq![':'] + digits),
            ) by {
                assert(s@ =~= ip_text(ip) + (seq![':'] + digits));
                lemma_ip(ip, seq![':'] + digits);
            }
            lemma_ip_sound(s@);
        }
        let (ip, end) = match take_ip(chars.as_slice()) {
            Some(t) => t,
            None => {
                return None;
            },
        };
        let ghost tail = chars@.skip(end as int);
        if end >= chars.len() || chars[end] != ':' {
            assert forall|other: Ipv4Addr, digits: Seq<char>| !#[trigger]
                denotes_socket(s@, other, digits) by {
                if denotes_socket(s@, other, digits) {
                    assert(tail == seq![':'] + digits);
                    assert(tail[0] == ':');
                }
            }
            return None;
        }
        let ghost digits = chars@.skip(end + 1);
        proof {
            assert(tail =~= seq![':'] + digits);
            assert forall|other: Ipv4Addr, run: Seq<char>| #[trigger]
                denotes_socket(s@, other, run) implies other == ip && run == digits by {
                assert((seq![':'] + run).skip(1) =~= run);
                assert((seq![':'] + digits).skip(1) =~= digits);
            }
            assert(s@ =~= ip_text(ip).push(':') + digits);
        }
        match text::digits_up_to(chars.as_slice(), end + 1, 65535) {
            Some(port) => {
                assert(denotes_socket(s@, ip, digits));
                Some(SocketAddrV4 { ip, port: port as u16 })
            },
            None => None,
        }
    }

    /// The address in dotted decimal form and the port behind a colon.
    pub fn text(&self) -> (out: String)
        ensures
            out@ == socket_text(*self),
    {
        let mut out: String = self.ip.text();
        out.push(':');
        text::push_decimal(&mut out, self.port as u64);
        out
    }
}

/// An address is written as its four numbers with points between them.
pub proof fn addresses_are_four_numbers(ip: Ipv4Addr, port: u16)
    ensures
        ip_text(ip) == text::decimal_text(ip.a as nat) + seq!['.'] + text::decimal_text(ip.b as nat)
            + seq!['.'] + text::decimal_text(ip.c as nat) + seq!['.'] + text::decimal_text(
            ip.d as nat,
        ),
        socket_text(SocketAddrV4 { ip, port }) == ip_text(ip) + seq![':'] + text::decimal_text(
            port as nat,
        ),
        ip.bytes().len() == 4,
        ip.bytes()[0] == ip.a && ip.bytes()[1] == ip.b && ip.bytes()[2] == ip.c && ip.bytes()[3]
            == ip.d,
{
    assert(ip_text(ip) =~= text::decimal_text(ip.a as nat) + seq!['.'] + text::decimal_text(
        ip.b as nat,
    ) + seq!['.'] + text::decimal_text(ip.c as nat) + seq!['.'] + text::decimal_text(ip.d as nat));
    assert(socket_text(SocketAddrV4 { ip, port }) =~= ip_text(ip) + seq![':'] + text::decimal_text(
        port as nat,
    ));
}

/// The text of an address and a port reads back as both if and only if the port
/// fits; zeros in front of the port do not matter.
pub proof fn sockets_read_back(ip: Ipv4Addr, port: nat, zeros: nat)
    ensures
        socket_of_text(
            ip_text(ip) + seq![':'] + (Seq::new(zeros, |i: int| '0') + text::decimal_text(port)),
        ) == if port <= 0xffff {
            Some(SocketAddrV4 { ip, port: port as u16 })
        } else {
            None
        },
{
    let digits = Seq::new(zeros, |i: int| '0') + text::decimal_text(port);
    let s = ip_text(ip) + seq![':'] + digits;
    text::lemma_decimal_text(port);
    text::lemma_zeros(zeros, text::decimal_text(port));
    assert(s =~= ip_text(ip).push(':') + digits);
    let tail = seq![':'] + digits;
    assert(s =~= ip_text(ip) + tail);
    if port <= 0xffff {
        assert(denotes_socket(s, ip, digits));
    }
    assert forall|other: Ipv4Addr, other_digits: Seq<char>| #[trigger]
        denotes_socket(s, other, other_digits) implies other == ip && other_digits == digits by {
        let other_tail = seq![':'] + other_digits;
        assert(s =~= ip_text(other) + other_tail);
        lemma_ip(ip, tail);
        lemma_ip(other, other_tail);
        assert(other_tail.skip(1) =~= other_digits);
        assert(tail.skip(1) =~= digits);
    }
}

} // verus!
