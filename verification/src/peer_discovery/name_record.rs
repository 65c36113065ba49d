//! Name records: the address and the ports of a node, numbered and signed.
use vstd::prelude::*;

use crate::peer_discovery::address::{Ipv4Addr, SocketAddrV4};
use crate::peer_discovery::ports;
use crate::peer_discovery::ports::{Port, PortList, PortTag};
use crate::rlp;
use crate::rlp::{RlpError, RlpErrorView};
use crate::rlp_codec;

verus! {

/// What a record says.
pub struct RecordView {
    pub ip: Ipv4Addr,
    pub ports: Seq<Port>,
    pub capabilities: u64,
    pub seq: u64,
}

/// A record as it travels.
#[derive(Debug, PartialEq, Eq)]
pub struct WireNameRecordV2 {
    pub ip: Ipv4Addr,
    pub ports: PortList,
    pub capabilities: u64,
    pub seq: u64,
}

impl View for WireNameRecordV2 {
    type V = RecordView;

    open spec fn view(&self) -> RecordView {
        RecordView {
            ip: self.ip,
            ports: self.ports@,
            capabilities: self.capabilities,
            seq: self.seq,
        }
    }
}

/// The fields of a record, one item after the other.
pub open spec fn record_fields(r: RecordView) -> Seq<u8> {
    rlp::rlp_string(r.ip.bytes()) + (ports::port_list_item(r.ports) + (rlp::rlp_uint(
        r.capabilities as nat,
    ) + rlp::rlp_uint(r.seq as nat)))
}

/// The item of a record.
pub open spec fn record_item(r: RecordView) -> Seq<u8> {
    rlp::rlp_list(record_fields(r))
}

/// The address at the start of `bytes`: a string of four bytes.
pub open spec fn parse_ip(bytes: Seq<u8>) -> Option<(Ipv4Addr, Seq<u8>)> {
    if bytes.len() >= 5 && bytes[0] == 0x84 {
        Some((Ipv4Addr { a: bytes[1], b: bytes[2], c: bytes[3], d: bytes[4] }, bytes.skip(5)))
    } else {
        None
    }
}

/// What a decoder of the fields of a record makes of the payload of a list.
#[verifier::opaque]
pub open spec fn parse_fields(payload: Seq<u8>) -> Result<RecordView, RlpErrorView> {
    match parse_ip(payload) {
        None => Err(RlpErrorView::Custom("Invalid IPv4 address"@)),
        Some((ip, tail)) => match ports::parse_port_list(tail) {
            Err(e) => Err(e),
            Ok((ports, tail)) => match rlp_codec::parse_u64(tail) {
                Err(e) => Err(e),
                Ok((capabilities, tail)) => match rlp_codec::parse_u64(tail) {
                    Err(e) => Err(e),
                    Ok((seq, tail)) => if tail.len() > 0 {
                        Err(RlpErrorView::UnexpectedLength)
                    } else {
                        Ok(RecordView { ip, ports, capabilities, seq })
                    },
                },
            },
        },
    }
}

/// What a decoder of a record as it travels makes of `bytes`.
pub open spec fn parse_wire(bytes: Seq<u8>) -> Result<(RecordView, Seq<u8>), RlpErrorView> {
    match rlp_codec::parse_list(bytes) {
        Err(e) => Err(e),
        Ok((payload, rest)) => match parse_fields(payload) {
            Ok(r) => Ok((r, rest)),
            Err(e) => Err(e),
        },
    }
}

/// Why a record cannot be used, if so: every use is there once at most, and
/// there are ports for TCP and for authenticated UDP.
pub open spec fn record_flaw(r: RecordView) -> Option<Seq<char>> {
    if ports::repeats_a_tag(r.ports) {
        Some("duplicate port tag"@)
    } else if ports::port_for(r.ports, PortTag::TCP) is None {
        Some("Missing TCP port"@)
    } else if ports::port_for(r.ports, PortTag::AuthenticatedUDP) is None {
        Some("Missing authenticated UDP port"@)
    } else {
        None
    }
}

/// What a decoder of a record makes of `bytes`.
pub open spec fn parse_record(bytes: Seq<u8>) -> Result<(RecordView, Seq<u8>), RlpErrorView> {
    match parse_wire(bytes) {
        Err(e) => Err(e),
        Ok((r, rest)) => match record_flaw(r) {
            Some(text) => Err(RlpErrorView::Custom(text)),
            None => Ok((r, rest)),
        },
    }
}

proof fn lemma_ip_item(ip: Ipv4Addr, rest: Seq<u8>)
    ensures
        rlp::rlp_string(ip.bytes()).len() == 5,
        parse_ip(rlp::rlp_string(ip.bytes()) + rest) == Some((ip, rest)),
{
    let item = rlp::rlp_string(ip.bytes());
    assert(item =~= seq![0x84u8, ip.a, ip.b, ip.c, ip.d]);
    assert((item + rest).skip(5) =~= rest);
}

proof fn lemma_ip_item_canonical(bytes: Seq<u8>)
    ensures
        parse_ip(bytes) matches Some((ip, rest)) ==> bytes == rlp::rlp_string(ip.bytes()) + rest,
{
    if let Some((ip, rest)) = parse_ip(bytes) {
        let item = rlp::rlp_string(ip.bytes());
        assert(item =~= seq![0x84u8, ip.a, ip.b, ip.c, ip.d]);
        assert(bytes =~= item + rest);
    }
}

proof fn lemma_word_item_len(n: u64)
    ensures
        rlp::rlp_uint(n as nat).len() <= 9,
{
    rlp::lemma_be_len_word(n as nat);
}

proof fn lemma_fields_len(r: RecordView)
    requires
        r.ports.len() <= 8,
    ensures
        record_fields(r).len() <= 100,
{
    lemma_ip_item(r.ip, Seq::empty());
    ports::lemma_port_items_len(r.ports);
    lemma_word_item_len(r.capabilities);
    lemma_word_item_len(r.seq);
    let n = ports::port_items(r.ports).len();
    reveal_with_fuel(rlp::be_bytes, 3);
    assert(rlp::rlp_header(true, n).len() <= 2);
}

/// Decoding the fields of a record gives the record back.
pub proof fn lemma_parse_fields(r: RecordView)
    requires
        r.ports.len() <= 8,
    ensures
        parse_fields(record_fields(r)) == Ok::<RecordView, RlpErrorView>(r),
{
    reveal(parse_fields);
    let capabilities = rlp::rlp_uint(r.capabilities as nat);
    let seq = rlp::rlp_uint(r.seq as nat);
    let none = Seq::<u8>::empty();
    lemma_ip_item(r.ip, ports::port_list_item(r.ports) + (capabilities + seq));
    ports::lemma_parse_port_list(r.ports, capabilities + seq);
    rlp_codec::lemma_parse_u64(r.capabilities, seq);
    rlp_codec::lemma_parse_u64(r.seq, none);
    assert(seq + none =~= seq);
}

/// What a decoder of fields accepts is the encoding of the record.
pub proof fn lemma_parse_fields_canonical(payload: Seq<u8>)
    ensures
        parse_fields(payload) matches Ok(r) ==> payload == record_fields(r) && r.ports.len() <= 8,
{
    reveal(parse_fields);
    lemma_ip_item_canonical(payload);
    if let Some((ip, s1)) = parse_ip(payload) {
        ports::lemma_parse_port_list_canonical(s1);
        if let Ok((list, s2)) = ports::parse_port_list(s1) {
            rlp_codec::lemma_parse_u64_canonical(s2);
            if let Ok((capabilities, s3)) = rlp_codec::parse_u64(s2) {
                rlp_codec::lemma_parse_u64_canonical(s3);
                if let Ok((seq, s4)) = rlp_codec::parse_u64(s3) {
                    if s4.len() == 0 {
                        let r = RecordView { ip, ports: list, capabilities, seq };
                        assert(rlp::rlp_uint(seq as nat) + s4 =~= rlp::rlp_uint(seq as nat));
                        assert(payload =~= record_fields(r));
                    }
                }
            }
        }
    }
}

/// A record is read back from its item, whatever follows, ports of unknown use
/// and capabilities included.
pub proof fn record_roundtrip(r: RecordView, rest: Seq<u8>)
    requires
        r.ports.len() <= 8,
        record_flaw(r) is None,
    ensures
        parse_record(record_item(r) + rest) == Ok::<(RecordView, Seq<u8>), RlpErrorView>(
            (r, rest),
        ),
{
    lemma_fields_len(r);
    rlp_codec::lemma_parse_list(record_fields(r), rest);
    lemma_parse_fields(r);
}

/// The bytes of a record that was decoded are those that encoding it gives.
pub proof fn record_is_canonical(bytes: Seq<u8>)
    ensures
        parse_record(bytes) matches Ok((r, rest)) ==> {
            &&& bytes == record_item(r) + rest
            &&& r.ports.len() <= 8
            &&& record_flaw(r) is None
        },
{
    rlp_codec::lemma_parse_list_canonical(bytes);
    if let Ok((payload, rest)) = rlp_codec::parse_list(bytes) {
        lemma_parse_fields_canonical(payload);
    }
}

/// Different records have different items: a signature on the item of one is
/// none on the item of another.
pub proof fn record_item_is_injective(x: RecordView, y: RecordView)
    requires
        x.ports.len() <= 8,
        y.ports.len() <= 8,
        record_item(x) == record_item(y),
    ensures
        x == y,
{
    let none = Seq::<u8>::empty();
    lemma_fields_len(x);
    lemma_fields_len(y);
    rlp_codec::lemma_parse_list(record_fields(x), none);
    rlp_codec::lemma_parse_list(record_fields(y), none);
    lemma_parse_fields(x);
    lemma_parse_fields(y);
}

fn take_ip(bytes: &[u8]) -> (r: Option<(Ipv4Addr, &[u8])>)
    ensures
        match r {
            Some((ip, rest)) => parse_ip(bytes@) == Some((ip, rest@)),
            None => parse_ip(bytes@) is None,
        },
{
    match rlp_codec::take_four_bytes(bytes) {
        Some((v, rest)) => {
            let ip = Ipv4Addr { a: v[0], b: v[1], c: v[2], d: v[3] };
            proof {
                assert(v@ =~= ip.bytes());
                lemma_ip_item(ip, rest@);
            }
            Some((ip, rest))
        },
        None => {
            if bytes.len() >= 5 && bytes[0] == 0x84 {
                let ip = Ipv4Addr { a: bytes[1], b: bytes[2], c: bytes[3], d: bytes[4] };
                let v: [u8; 4] = ip.octets();
                proof {
                    lemma_ip_item_canonical(bytes@);
                    assert(bytes@ == rlp::rlp_string(v@) + bytes@.skip(5));
                }
            }
            None
        },
    }
}

impl WireNameRecordV2 {
    /// The item of the record.
    pub fn encode(&self) -> (out: Vec<u8>)
        ensures
            out@ == record_item(self@),
    {
        let mut fields: Vec<u8> = rlp_codec::encode_four_bytes(self.ip.octets());
        let mut list: Vec<u8> = self.ports.encode();
        let mut capabilities: Vec<u8> = rlp_codec::encode_u64(self.capabilities);
        let mut seq: Vec<u8> = rlp_codec::encode_u64(self.seq);
        fields.append(&mut list);
        fields.append(&mut capabilities);
        fields.append(&mut seq);
        assert(fields@ =~= record_fields(self@));
        rlp_codec::encode_list(fields)
    }

    /// Decodes a record as it travels.
    pub fn decode(bytes: &[u8]) -> (r: Result<(Self, &[u8]), RlpError>)
        ensures
            match r {
                Ok((record, rest)) => parse_wire(bytes@) == Ok::<
                    (RecordView, Seq<u8>),
                    RlpErrorView,
                >((record@, rest@)),
                Err(e) => parse_wire(bytes@) == Err::<(RecordView, Seq<u8>), RlpErrorView>(e@),
            },
    {
        proof {
            reveal(parse_fields);
        }
        let (payload, rest) = match rlp_codec::take_list(bytes) {
            Ok(split) => split,
            Err(e) => {
                return Err(e);
            },
        };
        let (ip, tail) = match take_ip(payload) {
            Some(split) => split,
            None => {
                return Err(RlpError::Custom("Invalid IPv4 address"));
            },
        };
        let (ports, tail) = match PortList::decode(tail) {
            Ok(split) => split,
            Err(e) => {
                return Err(e);
            },
        };
        let (capabilities, tail) = match rlp_codec::take_u64(tail) {
            Ok(split) => split,
            Err(e) => {
                return Err(e);
            },
        };
        let (seq, tail) = match rlp_codec::take_u64(tail) {
            Ok(split) => split,
            Err(e) => {
                return Err(e);
            },
        };
        if tail.len() > 0 {
            return Err(RlpError::UnexpectedLength);
        }
        Ok((WireNameRecordV2 { ip, ports, capabilities, seq }, rest))
    }

    /// Decodes a record and checks that it can be used.
    pub fn decode_to_name_record(bytes: &[u8]) -> (r: Result<(NameRecord, &[u8]), RlpError>)
        ensures
            match r {
                Ok((record, rest)) => record.wf() && parse_record(bytes@) == Ok::<
                    (RecordView, Seq<u8>),
                    RlpErrorView,
                >((record@, rest@)),
                Err(e) => parse_record(bytes@) == Err::<(RecordView, Seq<u8>), RlpErrorView>(e@),
            },
    {
        let (wire, rest) = match WireNameRecordV2::decode(bytes) {
            Ok(split) => split,
            Err(e) => {
                return Err(e);
            },
        };
        if wire.ports.has_duplicate_tag() {
            return Err(RlpError::Custom("duplicate port tag"));
        }
        if wire.ports.tcp_port().is_none() {
            return Err(RlpError::Custom("Missing TCP port"));
        }
        if wire.ports.authenticated_udp_port().is_none() {
            return Err(RlpError::Custom("Missing authenticated UDP port"));
        }
        proof {
            record_is_canonical(bytes@);
        }
        Ok((NameRecord { record: wire }, rest))
    }
}

/// A capability of a node, by the number of its bit.
#[derive(Clone, Copy, Debug, PartialEq, Eq, Hash, Structural)]
pub struct Capability {
    pub bit: u8,
}

/// Whether a capability is among some.
pub open spec fn has_capability(capabilities: u64, bit: u8) -> bool {
    capabilities & (1u64 << bit) != 0
}

/// The address and the ports of a node.
#[derive(Debug, PartialEq, Eq)]
pub struct NameRecord {
    record: WireNameRecordV2,
}

impl View for NameRecord {
    type V = RecordView;

    closed spec fn view(&self) -> RecordView {
        self.record@
    }
}

/// A port that is there only if it was given.
pub open spec fn optional_port(tag: PortTag, port: Option<u16>) -> Seq<Port> {
    match port {
        Some(p) => seq![Port { tag: ports::tag_number(tag), port: p }],
        None => Seq::empty(),
    }
}

/// The ports of a record in the order in which they are written down.
pub open spec fn listed_ports(
    tcp: u16,
    udp: Option<u16>,
    authenticated_udp: u16,
    direct_udp: Option<u16>,
) -> Seq<Port> {
    optional_port(PortTag::TCP, Some(tcp)) + optional_port(PortTag::UDP, udp) + optional_port(
        PortTag::AuthenticatedUDP,
        Some(authenticated_udp),
    ) + optional_port(PortTag::DirectUDP, direct_udp)
}

/// A record of these ports without capabilities.
pub open spec fn plain_record(
    ip: Ipv4Addr,
    tcp: u16,
    udp: Option<u16>,
    authenticated_udp: u16,
    direct_udp: Option<u16>,
    seq: u64,
) -> RecordView {
    RecordView {
        ip,
        ports: listed_ports(tcp, udp, authenticated_udp, direct_udp),
        capabilities: 0,
        seq,
    }
}

/// A record holds exactly the ports that it was made with.
pub proof fn plain_record_ports(
    ip: Ipv4Addr,
    tcp: u16,
    udp: Option<u16>,
    authenticated_udp: u16,
    direct_udp: Option<u16>,
    seq: u64,
)
    ensures
        ({
            let r = plain_record(ip, tcp, udp, authenticated_udp, direct_udp, seq);
            &&& r.ports.len() <= 4
            &&& record_flaw(r) is None
            &&& ports::port_for(r.ports, PortTag::TCP) == Some(tcp)
            &&& ports::port_for(r.ports, PortTag::UDP) == udp
            &&& ports::port_for(r.ports, PortTag::AuthenticatedUDP) == Some(authenticated_udp)
            &&& ports::port_for(r.ports, PortTag::DirectUDP) == direct_udp
        }),
{
    let list = listed_ports(tcp, udp, authenticated_udp, direct_udp);
    reveal_with_fuel(ports::port_for, 5);
    let first = Port { tag: 0, port: tcp };
    let third = Port { tag: 2, port: authenticated_udp };
    match (udp, direct_udp) {
        (Some(u), Some(d)) => {
            assert(list =~= seq![
                first,
                Port { tag: 1, port: u },
                third,
                Port { tag: 3, port: d },
            ]);
        },
        (Some(u), None) => {
            assert(list =~= seq![first, Port { tag: 1, port: u }, third]);
        },
        (None, Some(d)) => {
            assert(list =~= seq![first, third, Port { tag: 3, port: d }]);
        },
        (None, None) => {
            assert(list =~= seq![first, third]);
        },
    }
}

impl NameRecord {
    /// The record can be used, and its ports fit.
    pub open spec fn wf(self) -> bool {
        &&& self@.ports.len() <= 8
        &&& record_flaw(self@) is None
    }

    /// A record with the same port for TCP and both kinds of UDP.
    pub fn new(ip: Ipv4Addr, port: u16, seq: u64) -> (r: Self)
        ensures
            r.wf(),
            r@ == plain_record(ip, port, Some(port), port, None, seq),
    {
        NameRecord::new_with_ports(ip, port, Some(port), port, None, seq)
    }

    pub fn new_with_authentication(
        ip: Ipv4Addr,
        tcp_port: u16,
        udp_port: u16,
        authenticated_udp_port: u16,
        seq: u64,
    ) -> (r: Self)
        ensures
            r.wf(),
            r@ == plain_record(ip, tcp_port, Some(udp_port), authenticated_udp_port, None, seq),
    {
        NameRecord::new_with_ports(
            ip,
            tcp_port,
            Some(udp_port),
            authenticated_udp_port,
            None,
            seq,
        )
    }

    pub fn new_with_ports(
        ip: Ipv4Addr,
        tcp_port: u16,
        udp_port: Option<u16>,
        authenticated_udp_port: u16,
        direct_udp_port: Option<u16>,
        seq: u64,
    ) -> (r: Self)
        ensures
            r.wf(),
            r@ == plain_record(
                ip,
                tcp_port,
                udp_port,
                authenticated_udp_port,
                direct_udp_port,
                seq,
            ),
    {
        let mut list: PortList = PortList::new();
        list.push(Port::new(PortTag::TCP, tcp_port));
        if let Some(udp_port) = udp_port {
            list.push(Port::new(PortTag::UDP, udp_port));
        }
        list.push(Port::new(PortTag::AuthenticatedUDP, authenticated_udp_port));
        if let Some(direct_udp_port) = direct_udp_port {
            list.push(Port::new(PortTag::DirectUDP, direct_udp_port));
        }
        proof {
            plain_record_ports(
                ip,
                tcp_port,
                udp_port,
                authenticated_udp_port,
                direct_udp_port,
                seq,
            );
            assert(list@ =~= listed_ports(
                tcp_port,
                udp_port,
                authenticated_udp_port,
                direct_udp_port,
            ));
        }
        NameRecord { record: WireNameRecordV2 { ip, ports: list, capabilities: 0, seq } }
    }

    /// Another copy of the record.
    pub fn duplicate(&self) -> (r: Self)
        ensures
            r@ == self@,
    {
        NameRecord {
            record: WireNameRecordV2 {
                ip: self.record.ip,
                ports: self.record.ports.duplicate(),
                capabilities: self.record.capabilities,
                seq: self.record.seq,
            },
        }
    }

    pub fn ip(&self) -> (r: Ipv4Addr)
        ensures
            r == self@.ip,
    {
        self.record.ip
    }

    pub fn capabilities(&self) -> (r: u64)
        ensures
            r == self@.capabilities,
    {
        self.record.capabilities
    }

    pub fn seq(&self) -> (r: u64)
        ensures
            r == self@.seq,
    {
        self.record.seq
    }

    pub fn tcp_port(&self) -> (r: u16)
        requires
            self.wf(),
        ensures
            Some(r) == ports::port_for(self@.ports, PortTag::TCP),
    {
        self.record.ports.tcp_port().unwrap()
    }

    pub fn udp_port(&self) -> (r: Option<u16>)
        ensures
            r == ports::port_for(self@.ports, PortTag::UDP),
    {
        self.record.ports.udp_port()
    }

    pub fn tcp_socket(&self) -> (r: SocketAddrV4)
        requires
            self.wf(),
        ensures
            r.ip == self@.ip,
            Some(r.port) == ports::port_for(self@.ports, PortTag::TCP),
    {
        SocketAddrV4::new(self.ip(), self.tcp_port())
    }

    pub fn udp_socket(&self) -> (r: Option<SocketAddrV4>)
        ensures
            r == socket_for(self@, PortTag::UDP),
    {
        match self.udp_port() {
            Some(port) => Some(SocketAddrV4::new(self.ip(), port)),
            None => None,
        }
    }

    pub fn authenticated_udp_port(&self) -> (r: u16)
        requires
            self.wf(),
        ensures
            Some(r) == ports::port_for(self@.ports, PortTag::AuthenticatedUDP),
    {
        self.record.ports.authenticated_udp_port().unwrap()
    }

    pub fn authenticated_udp_socket(&self) -> (r: SocketAddrV4)
        requires
            self.wf(),
        ensures
            Some(r) == socket_for(self@, PortTag::AuthenticatedUDP),
    {
        SocketAddrV4::new(self.ip(), self.authenticated_udp_port())
    }

    pub fn direct_udp_port(&self) -> (r: Option<u16>)
        ensures
            r == ports::port_for(self@.ports, PortTag::DirectUDP),
    {
        self.record.ports.direct_udp_port()
    }

    pub fn direct_udp_socket(&self) -> (r: Option<SocketAddrV4>)
        ensures
            r == socket_for(self@, PortTag::DirectUDP),
    {
        match self.direct_udp_port() {
            Some(port) => Some(SocketAddrV4::new(self.ip(), port)),
            None => None,
        }
    }

    /// Whether the node has a capability.
    pub fn check_capability(&self, capability: Capability) -> (r: bool)
        requires
            capability.bit < 64,
        ensures
            r == has_capability(self@.capabilities, capability.bit),
    {
        (self.record.capabilities & (1u64 << capability.bit)) != 0
    }

    /// Gives the node a capability; the others stay as they are.
    pub fn set_capability(&mut self, capability: Capability)
        requires
            capability.bit < 64,
        ensures
            final(self)@ == (RecordView { capabilities: final(self)@.capabilities, ..old(self)@ }),
            forall|bit: u8|
                bit < 64 ==> #[trigger] has_capability(final(self)@.capabilities, bit) == (bit
                    == capability.bit || has_capability(old(self)@.capabilities, bit)),
    {
        let before: u64 = self.record.capabilities;
        let chosen: u8 = capability.bit;
        let after: u64 = before | (1u64 << chosen);
        self.record.capabilities = after;
        assert forall|bit: u8| bit < 64 implies #[trigger] has_capability(after, bit) == (bit
            == chosen || has_capability(before, bit)) by {
            assert((after & (1u64 << bit) != 0) == (bit == chosen || before & (1u64 << bit) != 0))
                by (bit_vector)
                requires
                    bit < 64,
                    chosen < 64,
                    after == before | (1u64 << chosen),
            ;
        }
    }

    /// The item of the record.
    pub fn encode(&self) -> (out: Vec<u8>)
        ensures
            out@ == record_item(self@),
    {
        self.record.encode()
    }

    /// Decodes a record.
    pub fn decode(bytes: &[u8]) -> (r: Result<(Self, &[u8]), RlpError>)
        ensures
            match r {
                Ok((record, rest)) => record.wf() && parse_record(bytes@) == Ok::<
                    (RecordView, Seq<u8>),
                    RlpErrorView,
                >((record@, rest@)),
                Err(e) => parse_record(bytes@) == Err::<(RecordView, Seq<u8>), RlpErrorView>(e@),
            },
    {
        WireNameRecordV2::decode_to_name_record(bytes)
    }
}

/// The socket of a use.
pub open spec fn socket_for(r: RecordView, tag: PortTag) -> Option<SocketAddrV4> {
    match ports::port_for(r.ports, tag) {
        Some(port) => Some(SocketAddrV4 { ip: r.ip, port }),
        None => None,
    }
}

/// A record with a signature on its item.
#[derive(Debug, PartialEq, Eq)]
pub struct MonadNameRecord<S> {
    pub name_record: NameRecord,
    pub signature: S,
}

/// Some sockets with one more, if it is not there yet.
pub open spec fn with_socket(
    sockets: Seq<SocketAddrV4>,
    socket: Option<SocketAddrV4>,
) -> Seq<SocketAddrV4> {
    match socket {
        Some(s) => if sockets.contains(s) {
            sockets
        } else {
            sockets.push(s)
        },
        None => sockets,
    }
}

/// The sockets on which a node takes UDP packets, each once: plain,
/// authenticated, direct.
pub open spec fn udp_sockets(r: RecordView) -> Seq<SocketAddrV4> {
    let s = with_socket(Seq::empty(), socket_for(r, PortTag::UDP));
    let s = with_socket(s, socket_for(r, PortTag::AuthenticatedUDP));
    with_socket(s, socket_for(r, PortTag::DirectUDP))
}

fn add_socket(sockets: &mut Vec<SocketAddrV4>, socket: Option<SocketAddrV4>)
    ensures
        final(sockets)@ == with_socket(old(sockets)@, socket),
{
    if let Some(s) = socket {
        let mut i: usize = 0;
        while i < sockets.len()
            invariant
                i <= sockets@.len(),
                sockets@ == old(sockets)@,
                socket == Some(s),
                forall|j: int| 0 <= j < i ==> #[trigger] sockets@[j] != s,
            decreases sockets@.len() - i,
        {
            if sockets[i] == s {
                assert(sockets@.contains(sockets@[i as int]));
                return;
            }
            i = i + 1;
        }
        sockets.push(s);
    }
}

/// Whether signing a record with a key can give `signature`.
pub open spec fn signing_gives<S, K, F: Fn(&Vec<u8>, &K) -> S>(
    record: RecordView,
    sign: F,
    key: K,
    signature: S,
) -> bool {
    exists|bytes: Vec<u8>|
        bytes@ == record_item(record) && #[trigger] call_ensures(sign, (&bytes, &key), signature)
}

/// Whether recovering the key from a signature on a record can give `r`.
pub open spec fn recovery_gives<S, P, E, F: Fn(&S, &Vec<u8>) -> Result<P, E>>(
    record: RecordView,
    signature: S,
    recover: F,
    r: Result<P, E>,
) -> bool {
    exists|bytes: Vec<u8>|
        bytes@ == record_item(record) && #[trigger] call_ensures(recover, (&signature, &bytes), r)
}

/// Whether a scheme recovers `pubkey` from every signature made with `key` on
/// the bytes that were signed.
pub open spec fn recovers<
    S,
    K,
    P,
    E,
    G: Fn(&Vec<u8>, &K) -> S,
    F: Fn(&S, &Vec<u8>) -> Result<P, E>,
>(sign: G, recover: F, key: K, pubkey: P) -> bool {
    forall|signed: Vec<u8>, bytes: Vec<u8>, signature: S, r: Result<P, E>|
        signed@ == bytes@ && #[trigger] call_ensures(sign, (&signed, &key), signature)
            && #[trigger] call_ensures(recover, (&signature, &bytes), r) ==> r == Ok::<P, E>(pubkey)
}

/// The key that is recovered from a signed record is the signer's, for a scheme
/// that recovers it from the bytes signed. `record` is the record that was
/// signed, or what came of it when it was written and read again.
pub proof fn recovery_finds_the_signer<
    S,
    K,
    P,
    E,
    G: Fn(&Vec<u8>, &K) -> S,
    F: Fn(&S, &Vec<u8>) -> Result<P, E>,
>(
    signed: RecordView,
    record: MonadNameRecord<S>,
    sign: G,
    recover: F,
    key: K,
    pubkey: P,
    r: Result<P, E>,
)
    requires
        recovers(sign, recover, key, pubkey),
        signing_gives(signed, sign, key, record.signature),
        record.name_record@ == signed,
        recovery_gives(record.name_record@, record.signature, recover, r),
    ensures
        r == Ok::<P, E>(pubkey),
{
    let signed_bytes = choose|bytes: Vec<u8>|
        bytes@ == record_item(signed) && #[trigger] call_ensures(
            sign,
            (&bytes, &key),
            record.signature,
        );
    let bytes = choose|bytes: Vec<u8>|
        bytes@ == record_item(signed) && #[trigger] call_ensures(
            recover,
            (&record.signature, &bytes),
            r,
        );
    assert(signed_bytes@ == bytes@);
}

impl<S> MonadNameRecord<S> {
    /// Signs a record.
    pub fn new<K, F: Fn(&Vec<u8>, &K) -> S>(name_record: NameRecord, sign: F, key: &K) -> (r: Self)
        requires
            forall|bytes: &Vec<u8>| call_requires(sign, (bytes, key)),
        ensures
            r.name_record == name_record,
            signing_gives(name_record@, sign, *key, r.signature),
    {
        let encoded: Vec<u8> = name_record.encode();
        let signature: S = sign(&encoded, key);
        let r = MonadNameRecord { name_record, signature };
        assert(call_ensures(sign, (&encoded, key), r.signature));
        r
    }

    /// The key that signed the record.
    pub fn recover_pubkey<P, E, F: Fn(&S, &Vec<u8>) -> Result<P, E>>(&self, recover: F) -> (r:
        Result<P, E>)
        requires
            forall|bytes: &Vec<u8>| call_requires(recover, (&self.signature, bytes)),
        ensures
            recovery_gives(self.name_record@, self.signature, recover, r),
    {
        let encoded: Vec<u8> = self.name_record.encode();
        recover(&self.signature, &encoded)
    }

    pub fn udp_address(&self) -> (r: Option<SocketAddrV4>)
        ensures
            r == socket_for(self.name_record@, PortTag::UDP),
    {
        self.name_record.udp_socket()
    }

    pub fn authenticated_udp_address(&self) -> (r: SocketAddrV4)
        requires
            self.name_record.wf(),
        ensures
            Some(r) == socket_for(self.name_record@, PortTag::AuthenticatedUDP),
    {
        self.name_record.authenticated_udp_socket()
    }

    pub fn direct_udp_address(&self) -> (r: Option<SocketAddrV4>)
        ensures
            r == socket_for(self.name_record@, PortTag::DirectUDP),
    {
        self.name_record.direct_udp_socket()
    }

    /// The sockets on which the node takes UDP packets, each once.
    pub fn all_udp_sockets(&self) -> (r: Vec<SocketAddrV4>)
        requires
            self.name_record.wf(),
        ensures
            r@ == udp_sockets(self.name_record@),
    {
        let mut sockets: Vec<SocketAddrV4> = Vec::new();
        add_socket(&mut sockets, self.udp_address());
        add_socket(&mut sockets, Some(self.authenticated_udp_address()));
        add_socket(&mut sockets, self.direct_udp_address());
        sockets
    }

    pub fn seq(&self) -> (r: u64)
        ensures
            r == self.name_record@.seq,
    {
        self.name_record.seq()
    }

    /// The item of the signed record, given the item of the signature.
    pub fn encode(&self, signature_item: Vec<u8>) -> (out: Vec<u8>)
        ensures
            out@ == rlp::rlp_list(record_item(self.name_record@) + signature_item@),
    {
        let mut fields: Vec<u8> = self.name_record.encode();
        let mut tail: Vec<u8> = signature_item;
        fields.append(&mut tail);
        rlp_codec::encode_list(fields)
    }
}

/// No socket is listed twice, and the authenticated one is always there.
pub proof fn udp_sockets_are_distinct(r: RecordView)
    requires
        record_flaw(r) is None,
    ensures
        udp_sockets(r).no_duplicates(),
        1 <= udp_sockets(r).len() <= 3,
        udp_sockets(r).contains(socket_for(r, PortTag::AuthenticatedUDP)->Some_0),
{
    let auth = socket_for(r, PortTag::AuthenticatedUDP)->Some_0;
    let s1 = with_socket(Seq::empty(), socket_for(r, PortTag::UDP));
    let s2 = with_socket(s1, Some(auth));
    if !s1.contains(auth) {
        assert(s2[s1.len() as int] == auth);
    }
    assert(s2.contains(auth));
    let i = choose|i: int| 0 <= i < s2.len() && s2[i] == auth;
    assert(udp_sockets(r)[i] == auth);
}

/// The parts of a signed record that was decoded: the record, the bytes that
/// start with the item of the signature, and how many bytes the list holds in
/// all.
pub struct SignedParts<'a> {
    pub name_record: NameRecord,
    pub signature_bytes: &'a [u8],
    pub payload_length: usize,
    pub record_length: usize,
}

/// Starts to decode a signed record: the header of the list and the record. The
/// item of the signature comes next; [`SignedParts::finish`] checks that it
/// fills the list.
pub fn decode_signed(bytes: &[u8]) -> (r: Result<SignedParts<'_>, RlpError>)
    ensures
        match rlp_codec::parse_list_header(bytes@) {
            Err(e) => r matches Err(err) && err@ == e,
            Ok((n, body)) => match parse_record(body) {
                Err(e) => r matches Err(err) && err@ == e,
                Ok((record, rest)) => {
                    &&& r matches Ok(parts)
                    &&& parts.name_record.wf()
                    &&& parts.name_record@ == record
                    &&& parts.signature_bytes@ == rest
                    &&& parts.payload_length == n
                    &&& parts.record_length == body.len() - rest.len()
                },
            },
        },
{
    let (n, body) = match rlp_codec::take_list_header(bytes) {
        Ok(split) => split,
        Err(e) => {
            return Err(e);
        },
    };
    match NameRecord::decode(body) {
        Ok((name_record, rest)) => {
            proof {
                record_is_canonical(body@);
            }
            Ok(
                SignedParts {
                    name_record,
                    signature_bytes: rest,
                    payload_length: n,
                    record_length: body.len() - rest.len(),
                },
            )
        },
        Err(e) => Err(e),
    }
}

impl<'a> SignedParts<'a> {
    /// Ends the decoding with a signature whose item took `signature_length`
    /// bytes.
    pub fn finish<S>(self, signature: S, signature_length: usize) -> (r: Result<
        MonadNameRecord<S>,
        RlpError,
    >)
        requires
            self.record_length + signature_length <= usize::MAX,
        ensures
            if self.record_length + signature_length == self.payload_length {
                r == Ok::<MonadNameRecord<S>, RlpError>(
                    MonadNameRecord { name_record: self.name_record, signature },
                )
            } else {
                r matches Err(RlpError::ListLengthMismatch { expected, got }) && expected
                    == self.payload_length && got == self.record_length + signature_length
            },
    {
        let got: usize = self.record_length + signature_length;
        if got != self.payload_length {
            return Err(RlpError::ListLengthMismatch { expected: self.payload_length, got });
        }
        Ok(MonadNameRecord { name_record: self.name_record, signature })
    }
}

/// A signed record is taken apart as it was put together.
pub proof fn signed_record_roundtrip(r: RecordView, signature_item: Seq<u8>, rest: Seq<u8>)
    requires
        r.ports.len() <= 8,
        record_flaw(r) is None,
        record_item(r).len() + signature_item.len() <= usize::MAX,
    ensures
        ({
            let fields = record_item(r) + signature_item;
            &&& rlp_codec::parse_list_header(rlp::rlp_list(fields) + rest) == Ok::<
                (usize, Seq<u8>),
                RlpErrorView,
            >((fields.len() as usize, fields + rest))
            &&& parse_record(fields + rest) == Ok::<(RecordView, Seq<u8>), RlpErrorView>(
                (r, signature_item + rest),
            )
        }),
{
    let fields = record_item(r) + signature_item;
    assert(rlp::rlp_list(fields) + rest =~= rlp::rlp_header(true, fields.len()) + (fields + rest));
    rlp_codec::lemma_parse_list_header(fields.len() as usize, fields + rest);
    assert(fields + rest =~= record_item(r) + (signature_item + rest));
    record_roundtrip(r, signature_item + rest);
}

/// A record is sound if and only if no tag is listed twice and there is a TCP
/// port and a port for authenticated UDP; what is wrong is told in this order.
pub proof fn sound_records_have_two_ports(r: RecordView)
    ensures
        ({
            let twice = exists|i: int, j: int|
                0 <= i < j < r.ports.len() && (#[trigger] r.ports[i]).tag == (
                #[trigger] r.ports[j]).tag;
            let tcp = exists|i: int| 0 <= i < r.ports.len() && (#[trigger] r.ports[i]).tag == 0;
            let auth = exists|i: int| 0 <= i < r.ports.len() && (#[trigger] r.ports[i]).tag == 2;
            &&& !twice && tcp && auth <==> record_flaw(r) is None
            &&& twice ==> record_flaw(r) == Some("duplicate port tag"@)
            &&& !twice && !tcp ==> record_flaw(r) == Some("Missing TCP port"@)
            &&& !twice && tcp && !auth ==> record_flaw(r) == Some(
                "Missing authenticated UDP port"@,
            )
        }),
{
    lemma_tag_listed(r.ports, PortTag::TCP);
    lemma_tag_listed(r.ports, PortTag::AuthenticatedUDP);
}

proof fn lemma_tag_listed(list: Seq<Port>, tag: PortTag)
    ensures
        ports::port_for(list, tag) is Some <==> exists|i: int|
            0 <= i < list.len() && (#[trigger] list[i]).tag == ports::tag_number(tag),
    decreases list.len(),
{
    if list.len() > 0 {
        lemma_tag_listed(list.skip(1), tag);
        if list[0].tag != ports::tag_number(tag) {
            if exists|i: int|
                0 <= i < list.skip(1).len() && (#[trigger] list.skip(1)[i]).tag
                    == ports::tag_number(tag) {
                let i = choose|i: int|
                    0 <= i < list.skip(1).len() && (#[trigger] list.skip(1)[i]).tag
                        == ports::tag_number(tag);
                assert(list[i + 1].tag == ports::tag_number(tag));
            }
            if exists|i: int|
                0 <= i < list.len() && (#[trigger] list[i]).tag == ports::tag_number(tag) {
                let i = choose|i: int|
                    0 <= i < list.len() && (#[trigger] list[i]).tag == ports::tag_number(tag);
                assert(list.skip(1)[i - 1].tag == ports::tag_number(tag));
            }
        }
    }
}

/// A socket of a record is at its address, at the port that is listed for it.
pub proof fn sockets_are_at_the_address(r: RecordView, tag: PortTag)
    ensures
        match ports::port_for(r.ports, tag) {
            Some(port) => socket_for(r, tag) matches Some(s) && s.ip == r.ip && s.port == port,
            None => socket_for(r, tag) is None,
        },
{
}

/// The UDP sockets of a record are those for its three kinds of UDP, as far as
/// they are listed, in this order, and none of them twice.
pub proof fn udp_sockets_stand_in_order(r: RecordView, s: SocketAddrV4)
    ensures
        udp_sockets(r).contains(s) <==> socket_for(r, PortTag::UDP) == Some(s) || socket_for(
            r,
            PortTag::AuthenticatedUDP,
        ) == Some(s) || socket_for(r, PortTag::DirectUDP) == Some(s),
        socket_for(r, PortTag::UDP) matches Some(first) ==> udp_sockets(r)[0] == first,
        socket_for(r, PortTag::UDP) is None ==> (socket_for(
            r,
            PortTag::AuthenticatedUDP,
        ) matches Some(first) ==> udp_sockets(r)[0] == first),
        forall|i: int, j: int|
            0 <= i < j < udp_sockets(r).len() ==> #[trigger] udp_sockets(r)[i] != #[trigger] udp_sockets(
                r,
            )[j],
        udp_sockets(r).len() == 3 ==> socket_for(r, PortTag::AuthenticatedUDP) == Some(
            udp_sockets(r)[1],
        ) && socket_for(r, PortTag::DirectUDP) == Some(udp_sockets(r)[2]),
{
    let s0 = Seq::<SocketAddrV4>::empty();
    let s1 = with_socket(s0, socket_for(r, PortTag::UDP));
    let s2 = with_socket(s1, socket_for(r, PortTag::AuthenticatedUDP));
    lemma_with_socket(s0, socket_for(r, PortTag::UDP), s);
    lemma_with_socket(s1, socket_for(r, PortTag::AuthenticatedUDP), s);
    lemma_with_socket(s2, socket_for(r, PortTag::DirectUDP), s);
}

proof fn lemma_with_socket(
    sockets: Seq<SocketAddrV4>,
    socket: Option<SocketAddrV4>,
    s: SocketAddrV4,
)
    requires
        sockets.no_duplicates(),
    ensures
        with_socket(sockets, socket).contains(s) <==> sockets.contains(s) || socket == Some(s),
        with_socket(sockets, socket).no_duplicates(),
        sockets.len() <= with_socket(sockets, socket).len() <= sockets.len() + 1,
        forall|i: int|
            0 <= i < sockets.len() ==> #[trigger] with_socket(sockets, socket)[i] == sockets[i],
{
    let after = with_socket(sockets, socket);
    if sockets.contains(s) {
        let i = choose|i: int| 0 <= i < sockets.len() && sockets[i] == s;
        assert(after[i] == s);
    }
    if let Some(x) = socket {
        if !sockets.contains(x) {
            assert(after[sockets.len() as int] == x);
            if after.contains(s) && s != x {
                let i = choose|i: int| 0 <= i < after.len() && after[i] == s;
                assert(sockets[i] == s);
            }
            assert forall|i: int, j: int| 0 <= i < after.len() && 0 <= j < after.len() && i
                != j implies after[i] != after[j] by {
                if i < sockets.len() && j < sockets.len() {
                    assert(sockets[i] != sockets[j]);
                } else if i < sockets.len() {
                    assert(sockets.contains(sockets[i]));
                } else {
                    assert(sockets.contains(sockets[j]));
                }
            }
        }
    }
}

/// A record is encoded as a list: the four bytes of its address, its ports, its
/// capabilities and its number, in this order.
pub proof fn record_fields_stand_in_order(r: RecordView, rest: Seq<u8>)
    requires
        r.ports.len() <= 8,
    ensures
        ({
            let r0 = rlp_codec::parse_list(record_item(r) + rest);
            let fields = r0->Ok_0.0;
            let r2 = ports::parse_port_list(fields.skip(5));
            let r3 = rlp_codec::parse_u64(r2->Ok_0.1);
            let r4 = rlp_codec::parse_u64(r3->Ok_0.1);
            &&& r0 is Ok && r0->Ok_0.1 == rest
            &&& fields.len() >= 5
            &&& fields[0] == 0x84 && fields[1] == r.ip.a && fields[2] == r.ip.b && fields[3]
                == r.ip.c && fields[4] == r.ip.d
            &&& r2 is Ok && r2->Ok_0.0 == r.ports
            &&& r3 is Ok && r3->Ok_0.0 == r.capabilities
            &&& r4 is Ok && r4->Ok_0.0 == r.seq && r4->Ok_0.1.len() == 0
        }),
{
    let capabilities = rlp::rlp_uint(r.capabilities as nat);
    let seq = rlp::rlp_uint(r.seq as nat);
    let none = Seq::<u8>::empty();
    let list = ports::port_list_item(r.ports);
    let head = rlp::rlp_string(r.ip.bytes());
    lemma_fields_len(r);
    rlp_codec::lemma_parse_list(record_fields(r), rest);
    lemma_ip_item(r.ip, list + (capabilities + seq));
    assert(record_fields(r).skip(5) =~= list + (capabilities + seq));
    assert(head =~= seq![0x84u8, r.ip.a, r.ip.b, r.ip.c, r.ip.d]);
    assert(record_fields(r)[0] == head[0] && record_fields(r)[1] == head[1]);
    assert(record_fields(r)[2] == head[2] && record_fields(r)[3] == head[3]);
    assert(record_fields(r)[4] == head[4]);
    ports::lemma_parse_port_list(r.ports, capabilities + seq);
    rlp_codec::lemma_parse_u64(r.capabilities, seq);
    assert(seq + none =~= seq);
    rlp_codec::lemma_parse_u64(r.seq, none);
}

/// A capability is one bit, counted from the lowest: with all others as they
/// are, setting the bit gives the capability and clearing it takes it.
pub proof fn capabilities_are_bits(capabilities: u64, bit: u8, other: u8)
    requires
        bit < 64,
        other < 64,
    ensures
        has_capability(capabilities | (1u64 << bit), bit),
        !has_capability(capabilities & !(1u64 << bit), bit),
        bit != other ==> (has_capability(capabilities | (1u64 << bit), other) <==> has_capability(
            capabilities,
            other,
        )),
        has_capability(1u64 << bit, other) <==> bit == other,
        !has_capability(0, bit),
{
    assert((capabilities | (1u64 << bit)) & (1u64 << bit) != 0) by (bit_vector)
        requires
            bit < 64,
    ;
    assert((capabilities & !(1u64 << bit)) & (1u64 << bit) == 0) by (bit_vector)
        requires
            bit < 64,
    ;
    assert(bit != other ==> (((capabilities | (1u64 << bit)) & (1u64 << other) != 0) <==> (
    capabilities & (1u64 << other) != 0))) by (bit_vector)
        requires
            bit < 64,
            other < 64,
    ;
    assert(((1u64 << bit) & (1u64 << other) != 0) <==> bit == other) by (bit_vector)
        requires
            bit < 64,
            other < 64,
    ;
    assert(0u64 & (1u64 << bit) == 0) by (bit_vector);
}

/// A plain record lists its ports by tag, in the order of the tags, and says
/// nothing else but its address and its number.
pub proof fn plain_records_list_their_ports(
    ip: Ipv4Addr,
    tcp: u16,
    authenticated_udp: u16,
    udp: u16,
    direct_udp: u16,
    seq: u64,
)
    ensures
        plain_record(ip, tcp, None, authenticated_udp, None, seq) == (RecordView {
            ip,
            ports: seq![Port { tag: 0, port: tcp }, Port { tag: 2, port: authenticated_udp }],
            capabilities: 0,
            seq,
        }),
        plain_record(ip, tcp, Some(udp), authenticated_udp, Some(direct_udp), seq) == (RecordView {
            ip,
            ports: seq![
                Port { tag: 0, port: tcp },
                Port { tag: 1, port: udp },
                Port { tag: 2, port: authenticated_udp },
                Port { tag: 3, port: direct_udp },
            ],
            capabilities: 0,
            seq,
        }),
{
    assert(listed_ports(tcp, None, authenticated_udp, None) =~= seq![
        Port { tag: 0, port: tcp },
        Port { tag: 2, port: authenticated_udp },
    ]);
    assert(listed_ports(tcp, Some(udp), authenticated_udp, Some(direct_udp)) =~= seq![
        Port { tag: 0, port: tcp },
        Port { tag: 1, port: udp },
        Port { tag: 2, port: authenticated_udp },
        Port { tag: 3, port: direct_udp },
    ]);
}

/// A record with a flaw is refused with that flaw, and bytes behind its fields
/// are refused, however it is encoded otherwise.
pub proof fn flawed_records_are_refused(r: RecordView, stray: Seq<u8>, rest: Seq<u8>)
    requires
        r.ports.len() <= 8,
        record_fields(r).len() + stray.len() <= usize::MAX,
    ensures
        record_flaw(r) matches Some(flaw) ==> parse_record(record_item(r) + rest) == Err::<
            (RecordView, Seq<u8>),
            RlpErrorView,
        >(RlpErrorView::Custom(flaw)),
        stray.len() > 0 ==> parse_record(rlp::rlp_list(record_fields(r) + stray) + rest) == Err::<
            (RecordView, Seq<u8>),
            RlpErrorView,
        >(RlpErrorView::UnexpectedLength),
{
    lemma_fields_len(r);
    rlp_codec::lemma_parse_list(record_fields(r), rest);
    lemma_parse_fields(r);
    if stray.len() > 0 {
        rlp_codec::lemma_parse_list(record_fields(r) + stray, rest);
        reveal(parse_fields);
        let capabilities = rlp::rlp_uint(r.capabilities as nat);
        let seq = rlp::rlp_uint(r.seq as nat);
        let list = ports::port_list_item(r.ports);
        let head = rlp::rlp_string(r.ip.bytes());
        assert(record_fields(r) + stray =~= head + (list + (capabilities + (seq + stray))));
        lemma_ip_item(r.ip, list + (capabilities + (seq + stray)));
        ports::lemma_parse_port_list(r.ports, capabilities + (seq + stray));
        rlp_codec::lemma_parse_u64(r.capabilities, seq + stray);
        rlp_codec::lemma_parse_u64(r.seq, stray);
    }
}

/// What a record on the wire says is what its fields hold.
pub proof fn records_say_what_they_hold(r: WireNameRecordV2)
    ensures
        r@.ip == r.ip,
        r@.ports == r.ports@,
        r@.capabilities == r.capabilities,
        r@.seq == r.seq,
{
}

} // verus!
