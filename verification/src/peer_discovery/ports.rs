//! The ports of a name record.
use vstd::prelude::*;

use arrayvec::ArrayVec;

use crate::rlp;
use crate::rlp::{RlpError, RlpErrorView};
use crate::rlp_codec;

verus! {

/// `arrayvec::ArrayVec`, a vector of bounded capacity.
#[verifier::external_type_specification]
#[verifier::external_body]
#[verifier::reject_recursive_types(T)]
pub struct ExArrayVec<T, const CAP: usize>(arrayvec::ArrayVec<T, CAP>);

/// How many ports a record holds at most.
pub const MAX_PORTS: usize = 8;

/// How a port is used.
#[derive(Clone, Copy, Debug, PartialEq, Eq, Hash, Structural)]
pub enum PortTag {
    TCP,
    UDP,
    AuthenticatedUDP,
    DirectUDP,
}

/// The number of a use on the wire.
pub open spec fn tag_number(tag: PortTag) -> u8 {
    match tag {
        PortTag::TCP => 0,
        PortTag::UDP => 1,
        PortTag::AuthenticatedUDP => 2,
        PortTag::DirectUDP => 3,
    }
}

/// A port with the number of its use.
#[derive(Clone, Copy, Debug, PartialEq, Eq, Structural)]
pub struct Port {
    pub tag: u8,
    pub port: u16,
}

/// The ports in a list.
pub uninterp spec fn ports_in(list: arrayvec::ArrayVec<Port, 8>) -> Seq<Port>;

/// `ArrayVec::new`: an empty list.
#[verifier::external_body]
fn empty_list() -> (r: ArrayVec<Port, 8>)
    ensures
        ports_in(r) == Seq::<Port>::empty(),
{
    ArrayVec::new()
}

/// `ArrayVec::push`: appends to a list that is not full. On a full one it
/// would panic.
#[verifier::external_body]
fn push_port(list: &mut ArrayVec<Port, 8>, port: Port)
    requires
        ports_in(*old(list)).len() < 8,
    ensures
        ports_in(*final(list)) == ports_in(*old(list)).push(port),
{
    list.push(port)
}

/// `ArrayVec::try_push`: appends unless the list is full.
#[verifier::external_body]
fn try_push_port(list: &mut ArrayVec<Port, 8>, port: Port) -> (pushed: bool)
    ensures
        pushed == (ports_in(*old(list)).len() < 8),
        ports_in(*final(list)) == if pushed {
            ports_in(*old(list)).push(port)
        } else {
            ports_in(*old(list))
        },
{
    list.try_push(port).is_ok()
}

/// `ArrayVec::as_slice`: the ports as a slice, never more than fit.
#[verifier::external_body]
fn list_slice(list: &ArrayVec<Port, 8>) -> (r: &[Port])
    ensures
        r@ == ports_in(*list),
        r@.len() <= 8,
{
    list.as_slice()
}

/// `ArrayVec::clone`: a list with the same ports.
#[verifier::external_body]
fn clone_list(list: &ArrayVec<Port, 8>) -> (r: ArrayVec<Port, 8>)
    ensures
        ports_in(r) == ports_in(*list),
{
    list.clone()
}

impl Port {
    pub fn new(tag: PortTag, port: u16) -> (r: Self)
        ensures
            r == (Port { tag: tag_number(tag), port }),
    {
        let number: u8 = match tag {
            PortTag::TCP => 0,
            PortTag::UDP => 1,
            PortTag::AuthenticatedUDP => 2,
            PortTag::DirectUDP => 3,
        };
        Port { tag: number, port }
    }

    /// The use of the port, if its number is known.
    pub fn tag_enum(&self) -> (r: Option<PortTag>)
        ensures
            match r {
                Some(tag) => tag_number(tag) == self.tag,
                None => self.tag > 3,
            },
    {
        match self.tag {
            0 => Some(PortTag::TCP),
            1 => Some(PortTag::UDP),
            2 => Some(PortTag::AuthenticatedUDP),
            3 => Some(PortTag::DirectUDP),
            _ => None,
        }
    }
}

/// The item of a port.
pub open spec fn port_item(p: Port) -> Seq<u8> {
    rlp::rlp_list(rlp::rlp_uint(p.tag as nat) + rlp::rlp_uint(p.port as nat))
}

/// The items of some ports, in order.
pub open spec fn port_items(ports: Seq<Port>) -> Seq<u8>
    decreases ports.len(),
{
    if ports.len() == 0 {
        Seq::empty()
    } else {
        port_item(ports[0]) + port_items(ports.skip(1))
    }
}

/// The item of a list of ports.
pub open spec fn port_list_item(ports: Seq<Port>) -> Seq<u8> {
    rlp::rlp_list(port_items(ports))
}

/// What a decoder of a port makes of `bytes`.
#[verifier::opaque]
pub open spec fn parse_port(bytes: Seq<u8>) -> Result<(Port, Seq<u8>), RlpErrorView> {
    match rlp_codec::parse_list_header(bytes) {
        Ok((n, body)) => match rlp_codec::parse_u8(body) {
            Ok((tag, tail)) => match rlp_codec::parse_u16(tail) {
                Ok((port, rest)) => if body.len() - rest.len() != n {
                    Err(
                        RlpErrorView::ListLengthMismatch {
                            expected: n,
                            got: (body.len() - rest.len()) as usize,
                        },
                    )
                } else {
                    Ok((Port { tag, port }, rest))
                },
                Err(e) => Err(e),
            },
            Err(e) => Err(e),
        },
        Err(e) => Err(e),
    }
}

/// What a decoder of consecutive ports makes of `bytes`, with room for `room`
/// ports.
pub open spec fn parse_port_items(bytes: Seq<u8>, room: nat) -> Result<Seq<Port>, RlpErrorView>
    decreases room,
{
    if bytes.len() == 0 {
        Ok(Seq::empty())
    } else {
        match parse_port(bytes) {
            Ok((p, rest)) => if room == 0 {
                Err(RlpErrorView::Custom("too many ports"@))
            } else {
                match parse_port_items(rest, (room - 1) as nat) {
                    Ok(tail) => Ok(seq![p] + tail),
                    Err(e) => Err(e),
                }
            },
            Err(e) => Err(e),
        }
    }
}

/// What a decoder of a list of ports makes of `bytes`.
#[verifier::opaque]
pub open spec fn parse_port_list(bytes: Seq<u8>) -> Result<(Seq<Port>, Seq<u8>), RlpErrorView> {
    match rlp_codec::parse_list(bytes) {
        Ok((payload, rest)) => match parse_port_items(payload, 8) {
            Ok(ports) => Ok((ports, rest)),
            Err(e) => Err(e),
        },
        Err(e) => Err(e),
    }
}

/// The port of the first entry for a use.
pub open spec fn port_for(ports: Seq<Port>, tag: PortTag) -> Option<u16>
    decreases ports.len(),
{
    if ports.len() == 0 {
        None
    } else if ports[0].tag == tag_number(tag) {
        Some(ports[0].port)
    } else {
        port_for(ports.skip(1), tag)
    }
}

/// Whether two ports have the same use.
pub open spec fn repeats_a_tag(ports: Seq<Port>) -> bool {
    exists|i: int, j: int|
        0 <= i < j < ports.len() && (#[trigger] ports[i]).tag == (#[trigger] ports[j]).tag
}

proof fn lemma_uint_len(n: nat)
    requires
        n < 0x1_0000,
    ensures
        0 < rlp::rlp_uint(n).len() <= 3,
        n < 0x100 ==> rlp::rlp_uint(n).len() <= 2,
{
    reveal_with_fuel(rlp::be_bytes, 4);
}

pub proof fn lemma_port_item_len(p: Port)
    ensures
        0 < port_item(p).len() <= 6,
{
    lemma_uint_len(p.tag as nat);
    lemma_uint_len(p.port as nat);
}

pub proof fn lemma_port_items_len(ports: Seq<Port>)
    ensures
        port_items(ports).len() <= 6 * ports.len(),
    decreases ports.len(),
{
    if ports.len() > 0 {
        lemma_port_item_len(ports[0]);
        lemma_port_items_len(ports.skip(1));
    }
}

proof fn lemma_port_items_push(ports: Seq<Port>, p: Port)
    ensures
        port_items(ports.push(p)) == port_items(ports) + port_item(p),
    decreases ports.len(),
{
    if ports.len() == 0 {
        reveal_with_fuel(port_items, 2);
        assert(ports.push(p).skip(1) =~= ports);
        assert(port_items(ports.push(p)) =~= port_items(ports) + port_item(p));
    } else {
        assert(ports.push(p).skip(1) =~= ports.skip(1).push(p));
        lemma_port_items_push(ports.skip(1), p);
        assert(port_items(ports.push(p)) =~= port_items(ports) + port_item(p));
    }
}

/// Decoding an encoded port gives it back, whatever follows.
pub proof fn lemma_parse_port(p: Port, rest: Seq<u8>)
    ensures
        parse_port(port_item(p) + rest) == Ok::<(Port, Seq<u8>), RlpErrorView>((p, rest)),
{
    reveal(parse_port);
    let tag = rlp::rlp_uint(p.tag as nat);
    let port = rlp::rlp_uint(p.port as nat);
    let body = tag + port;
    lemma_port_item_len(p);
    assert(port_item(p) + rest =~= rlp::rlp_header(true, body.len()) + (body + rest));
    lemma_uint_len(p.tag as nat);
    lemma_uint_len(p.port as nat);
    rlp_codec::lemma_parse_list_header(body.len() as usize, body + rest);
    assert(body + rest =~= tag + (port + rest));
    rlp_codec::lemma_parse_u8(p.tag, port + rest);
    rlp_codec::lemma_parse_u16(p.port, rest);
}

/// What a port decoder accepts starts with the encoding of the port.
pub proof fn lemma_parse_port_canonical(bytes: Seq<u8>)
    ensures
        parse_port(bytes) matches Ok((p, rest)) ==> bytes == port_item(p) + rest,
{
    reveal(parse_port);
    rlp_codec::lemma_parse_list_header_canonical(bytes);
    if let Ok((n, body)) = rlp_codec::parse_list_header(bytes) {
        rlp_codec::lemma_parse_u8_canonical(body);
        if let Ok((tag, tail)) = rlp_codec::parse_u8(body) {
            rlp_codec::lemma_parse_u16_canonical(tail);
            if let Ok((port, rest)) = rlp_codec::parse_u16(tail) {
                let p = Port { tag, port };
                let fields = rlp::rlp_uint(tag as nat) + rlp::rlp_uint(port as nat);
                assert(body =~= fields + rest);
                if body.len() - rest.len() == n {
                    assert(bytes =~= rlp::rlp_header(true, fields.len()) + fields + rest);
                    assert(bytes =~= port_item(p) + rest);
                }
            }
        }
    }
}

proof fn lemma_parse_port_items(ports: Seq<Port>, room: nat)
    requires
        ports.len() <= room,
    ensures
        parse_port_items(port_items(ports), room) == Ok::<Seq<Port>, RlpErrorView>(ports),
    decreases ports.len(),
{
    if ports.len() == 0 {
        assert(ports =~= Seq::<Port>::empty());
    } else {
        lemma_port_item_len(ports[0]);
        lemma_parse_port(ports[0], port_items(ports.skip(1)));
        lemma_parse_port_items(ports.skip(1), (room - 1) as nat);
        assert(ports =~= seq![ports[0]] + ports.skip(1));
    }
}

proof fn lemma_parse_port_items_canonical(bytes: Seq<u8>, room: nat)
    ensures
        parse_port_items(bytes, room) matches Ok(ports) ==> bytes == port_items(ports)
            && ports.len() <= room,
    decreases room,
{
    if bytes.len() == 0 {
        assert(bytes =~= port_items(Seq::empty()));
    } else {
        lemma_parse_port_canonical(bytes);
        if let Ok((p, rest)) = parse_port(bytes) {
            if room > 0 {
                lemma_parse_port_items_canonical(rest, (room - 1) as nat);
                if let Ok(tail) = parse_port_items(rest, (room - 1) as nat) {
                    assert((seq![p] + tail).skip(1) =~= tail);
                }
            }
        }
    }
}

/// Decoding an encoded list of ports gives it back, whatever follows.
pub proof fn lemma_parse_port_list(ports: Seq<Port>, rest: Seq<u8>)
    requires
        ports.len() <= 8,
    ensures
        parse_port_list(port_list_item(ports) + rest) == Ok::<(Seq<Port>, Seq<u8>), RlpErrorView>(
            (ports, rest),
        ),
{
    reveal(parse_port_list);
    lemma_port_items_len(ports);
    rlp_codec::lemma_parse_list(port_items(ports), rest);
    lemma_parse_port_items(ports, 8);
}

/// What a decoder of a list of ports accepts starts with the encoding.
pub proof fn lemma_parse_port_list_canonical(bytes: Seq<u8>)
    ensures
        parse_port_list(bytes) matches Ok((ports, rest)) ==> bytes == port_list_item(ports) + rest
            && ports.len() <= 8,
{
    reveal(parse_port_list);
    rlp_codec::lemma_parse_list_canonical(bytes);
    if let Ok((payload, rest)) = rlp_codec::parse_list(bytes) {
        lemma_parse_port_items_canonical(payload, 8);
    }
}

/// Decodes a port.
pub fn take_port(bytes: &[u8]) -> (r: Result<(Port, &[u8]), RlpError>)
    ensures
        match r {
            Ok((p, rest)) => parse_port(bytes@) == Ok::<(Port, Seq<u8>), RlpErrorView>((p, rest@)),
            Err(e) => parse_port(bytes@) == Err::<(Port, Seq<u8>), RlpErrorView>(e@),
        },
{
    proof {
        reveal(parse_port);
    }
    let (n, body) = match rlp_codec::take_list_header(bytes) {
        Ok(split) => split,
        Err(e) => {
            return Err(e);
        },
    };
    let (tag, tail) = match rlp_codec::take_u8(body) {
        Ok(split) => split,
        Err(e) => {
            return Err(e);
        },
    };
    let (port, rest) = match rlp_codec::take_u16(tail) {
        Ok(split) => split,
        Err(e) => {
            return Err(e);
        },
    };
    proof {
        rlp_codec::lemma_parse_u8_canonical(body@);
        rlp_codec::lemma_parse_u16_canonical(tail@);
    }
    let consumed: usize = body.len() - rest.len();
    if consumed != n {
        return Err(RlpError::ListLengthMismatch { expected: n, got: consumed });
    }
    Ok((Port { tag, port }, rest))
}

/// The ports of a record, at most [`MAX_PORTS`] of them.
#[derive(Debug, PartialEq, Eq)]
pub struct PortList(pub ArrayVec<Port, 8>);

impl View for PortList {
    type V = Seq<Port>;

    open spec fn view(&self) -> Seq<Port> {
        ports_in(self.0)
    }
}

impl PortList {
    /// A list without ports.
    pub fn new() -> (r: Self)
        ensures
            r@ == Seq::<Port>::empty(),
    {
        PortList(empty_list())
    }

    /// Another list with the same ports.
    pub fn duplicate(&self) -> (r: Self)
        ensures
            r@ == self@,
    {
        PortList(clone_list(&self.0))
    }

    /// Appends a port.
    pub fn push(&mut self, port: Port)
        requires
            old(self)@.len() < MAX_PORTS,
        ensures
            final(self)@ == old(self)@.push(port),
    {
        push_port(&mut self.0, port)
    }

    /// The ports in order.
    pub fn as_slice(&self) -> (r: &[Port])
        ensures
            r@ == self@,
            r@.len() <= 8,
    {
        list_slice(&self.0)
    }

    /// The port for a use.
    pub fn port_by_tag(&self, tag: PortTag) -> (r: Option<u16>)
        ensures
            r == port_for(self@, tag),
    {
        let ports: &[Port] = self.as_slice();
        let mut i: usize = 0;
        assert(ports@.skip(0) =~= ports@);
        while i < ports.len()
            invariant
                i <= ports@.len(),
                ports@ == self@,
                port_for(self@, tag) == port_for(ports@.skip(i as int), tag),
            decreases ports@.len() - i,
        {
            assert(ports@.skip(i as int).skip(1) =~= ports@.skip(i + 1));
            assert(ports@.skip(i as int)[0] == ports@[i as int]);
            if let Some(found) = ports[i].tag_enum() {
                if found == tag {
                    return Some(ports[i].port);
                }
            }
            i = i + 1;
        }
        None
    }

    pub fn tcp_port(&self) -> (r: Option<u16>)
        ensures
            r == port_for(self@, PortTag::TCP),
    {
        self.port_by_tag(PortTag::TCP)
    }

    pub fn udp_port(&self) -> (r: Option<u16>)
        ensures
            r == port_for(self@, PortTag::UDP),
    {
        self.port_by_tag(PortTag::UDP)
    }

    pub fn authenticated_udp_port(&self) -> (r: Option<u16>)
        ensures
            r == port_for(self@, PortTag::AuthenticatedUDP),
    {
        self.port_by_tag(PortTag::AuthenticatedUDP)
    }

    pub fn direct_udp_port(&self) -> (r: Option<u16>)
        ensures
            r == port_for(self@, PortTag::DirectUDP),
    {
        self.port_by_tag(PortTag::DirectUDP)
    }

    /// Whether two ports have the same use.
    pub fn has_duplicate_tag(&self) -> (r: bool)
        ensures
            r == repeats_a_tag(self@),
    {
        let ports: &[Port] = self.as_slice();
        let mut j: usize = 0;
        while j < ports.len()
            invariant
                j <= ports@.len(),
                ports@ == self@,
                forall|a: int, b: int|
                    0 <= a < b < j ==> (#[trigger] ports@[a]).tag != (#[trigger] ports@[b]).tag,
            decreases ports@.len() - j,
        {
            let mut i: usize = 0;
            while i < j
                invariant
                    i <= j < ports@.len(),
                    ports@ == self@,
                    forall|a: int|
                        0 <= a < i ==> (#[trigger] ports@[a]).tag != ports@[j as int].tag,
                decreases j - i,
            {
                if ports[i].tag == ports[j].tag {
                    assert(ports@[i as int].tag == ports@[j as int].tag);
                    return true;
                }
                i = i + 1;
            }
            j = j + 1;
        }
        false
    }

    /// The item of the list.
    pub fn encode(&self) -> (out: Vec<u8>)
        ensures
            out@ == port_list_item(self@),
    {
        let ports: &[Port] = self.as_slice();
        let mut payload: Vec<u8> = Vec::new();
        let mut i: usize = 0;
        assert(ports@.take(0) =~= Seq::<Port>::empty());
        while i < ports.len()
            invariant
                i <= ports@.len(),
                payload@ == port_items(ports@.take(i as int)),
            decreases ports@.len() - i,
        {
            let mut fields: Vec<u8> = rlp_codec::encode_u64(ports[i].tag as u64);
            let mut port: Vec<u8> = rlp_codec::encode_u64(ports[i].port as u64);
            fields.append(&mut port);
            let mut item: Vec<u8> = rlp_codec::encode_list(fields);
            payload.append(&mut item);
            proof {
                lemma_port_items_push(ports@.take(i as int), ports@[i as int]);
                assert(ports@.take(i + 1) =~= ports@.take(i as int).push(ports@[i as int]));
            }
            i = i + 1;
        }
        assert(ports@.take(i as int) =~= ports@);
        rlp_codec::encode_list(payload)
    }

    /// Decodes a list of ports.
    pub fn decode(bytes: &[u8]) -> (r: Result<(Self, &[u8]), RlpError>)
        ensures
            match r {
                Ok((list, rest)) => parse_port_list(bytes@) == Ok::<
                    (Seq<Port>, Seq<u8>),
                    RlpErrorView,
                >((list@, rest@)),
                Err(e) => parse_port_list(bytes@) == Err::<(Seq<Port>, Seq<u8>), RlpErrorView>(e@),
            },
    {
        proof {
            reveal(parse_port_list);
        }
        let (payload, rest) = match rlp_codec::take_list(bytes) {
            Ok(split) => split,
            Err(e) => {
                return Err(e);
            },
        };
        let mut list: ArrayVec<Port, 8> = empty_list();
        let mut left: &[u8] = payload;
        let ghost mut room: nat = 8;
        while left.len() > 0
            invariant
                rlp_codec::parse_list(bytes@) == Ok::<(Seq<u8>, Seq<u8>), RlpErrorView>(
                    (payload@, rest@),
                ),
                room + ports_in(list).len() == 8,
                match parse_port_items(left@, room) {
                    Ok(tail) => parse_port_items(payload@, 8) == Ok::<Seq<Port>, RlpErrorView>(
                        ports_in(list) + tail,
                    ),
                    Err(e) => parse_port_items(payload@, 8) == Err::<Seq<Port>, RlpErrorView>(e),
                },
            decreases left@.len(),
        {
            proof {
                reveal(parse_port_list);
                lemma_parse_port_canonical(left@);
            }
            match take_port(left) {
                Ok((port, tail)) => {
                    let ghost before = ports_in(list);
                    proof {
                        lemma_port_item_len(port);
                    }
                    if !try_push_port(&mut list, port) {
                        return Err(RlpError::Custom("too many ports"));
                    }
                    proof {
                        room = (room - 1) as nat;
                        if let Ok(after) = parse_port_items(tail@, room) {
                            assert(before + (seq![port] + after) =~= before.push(port) + after);
                        }
                    }
                    left = tail;
                },
                Err(e) => {
                    return Err(e);
                },
            }
        }
        assert(ports_in(list) + Seq::<Port>::empty() =~= ports_in(list));
        Ok((PortList(list), rest))
    }
}

/// The port for a tag is the first one listed with the number of the tag: zero
/// for TCP, one for UDP, two for authenticated UDP and three for direct UDP.
pub proof fn ports_are_found_by_tag(ports: Seq<Port>, tag: PortTag, at: int)
    requires
        0 <= at <= ports.len(),
    ensures
        ({
            let number: int = match tag {
                PortTag::TCP => 0,
                PortTag::UDP => 1,
                PortTag::AuthenticatedUDP => 2,
                PortTag::DirectUDP => 3,
            };
            (forall|j: int| 0 <= j < at ==> (#[trigger] ports[j]).tag != number) ==> {
                &&& at < ports.len() && ports[at].tag == number ==> port_for(ports, tag) == Some(
                    ports[at].port,
                )
                &&& at == ports.len() ==> port_for(ports, tag) is None
            }
        }),
    decreases ports.len(),
{
    if at > 0 {
        ports_are_found_by_tag(ports.skip(1), tag, at - 1);
        let number = tag_number(tag);
        if forall|j: int| 0 <= j < at ==> (#[trigger] ports[j]).tag != number {
            assert(ports[0].tag != number);
            assert forall|j: int| 0 <= j < at - 1 implies (#[trigger] ports.skip(1)[j]).tag
                != number by {
                assert(ports.skip(1)[j] == ports[j + 1]);
            }
        }
    }
}

proof fn lemma_too_many_ports(ports: Seq<Port>, room: nat)
    requires
        ports.len() > room,
    ensures
        parse_port_items(port_items(ports), room) == Err::<Seq<Port>, RlpErrorView>(
            RlpErrorView::Custom("too many ports"@),
        ),
    decreases room,
{
    lemma_port_item_len(ports[0]);
    lemma_parse_port(ports[0], port_items(ports.skip(1)));
    if room > 0 {
        lemma_too_many_ports(ports.skip(1), (room - 1) as nat);
    }
}

/// A list of ports is read back if and only if it holds eight at most.
pub proof fn long_port_lists_are_refused(ports: Seq<Port>, rest: Seq<u8>)
    requires
        6 * ports.len() <= usize::MAX,
    ensures
        parse_port_list(port_list_item(ports) + rest) == if ports.len() <= 8 {
            Ok::<(Seq<Port>, Seq<u8>), RlpErrorView>((ports, rest))
        } else {
            Err::<(Seq<Port>, Seq<u8>), RlpErrorView>(RlpErrorView::Custom("too many ports"@))
        },
        MAX_PORTS == 8,
{
    reveal(parse_port_list);
    lemma_port_items_len(ports);
    rlp_codec::lemma_parse_list(port_items(ports), rest);
    if ports.len() <= 8 {
        lemma_parse_port_items(ports, 8);
    } else {
        lemma_too_many_ports(ports, 8);
    }
}

/// A port is a list of its tag and its number, the tag first.
pub proof fn ports_are_pairs(p: Port)
    requires
        0 < p.tag < 0x80,
        0 < p.port < 0x80,
    ensures
        port_item(p) == seq![0xc2u8, p.tag, p.port as u8],
{
    reveal_with_fuel(rlp::be_bytes, 3);
    assert(rlp::be_bytes(p.tag as nat) =~= seq![p.tag]);
    assert(rlp::be_bytes(p.port as nat) =~= seq![p.port as u8]);
    assert(port_item(p) =~= seq![0xc2u8, p.tag, p.port as u8]);
}

} // verus!
