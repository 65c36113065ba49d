//! Peers as they are listed in settings, and their name records.
//!
//! An entry names a peer by its address; which of the peer's ports are meant is
//! found out by checking the signature on each record that the entry may stand
//! for.
use vstd::prelude::*;

use crate::peer_discovery::address;
use crate::peer_discovery::address::{Ipv4Addr, SocketAddr, SocketAddrV4};
use crate::peer_discovery::name_record;
use crate::peer_discovery::name_record::{MonadNameRecord, NameRecord, RecordView};
use crate::peer_discovery::ports;
use crate::peer_discovery::ports::PortTag;
use crate::text;

verus! {

/// A peer in a list of peers.
#[derive(Clone, Debug, PartialEq, Eq)]
pub struct PeerEntry<S, P> {
    pub pubkey: P,
    /// An address with the TCP port, or an address alone where TCP uses the
    /// port of authenticated UDP.
    pub addr: String,
    pub signature: S,
    pub record_seq_num: u64,
    pub auth_port: Option<u16>,
    pub direct_udp_port: Option<u16>,
}

/// A peer in the settings of a node.
#[derive(Clone, Debug, PartialEq, Eq)]
pub struct NodeBootstrapPeerConfig<S, P> {
    pub address: String,
    pub record_seq_num: u64,
    pub secp256k1_pubkey: P,
    pub name_record_sig: S,
    pub auth_port: Option<u16>,
    pub direct_udp_port: Option<u16>,
}

/// Why an entry does not lead to a record.
#[derive(Clone, Debug, PartialEq, Eq)]
pub enum PeerEntryConversionError<E> {
    InvalidAddress,
    MissingAuthenticatedUdpPort,
    InvalidSignature(E),
}

/// Why settings do not lead to a record.
#[derive(Clone, Copy, Debug, PartialEq, Eq, Structural)]
pub enum PeerConfigConversionError {
    InvalidAddress,
    InvalidSignature,
    MissingAuthenticatedUdpPort,
}

/// A record together with the key that signed it.
pub struct MonadNameRecordWithPubkey<'a, S, P> {
    pub record: &'a MonadNameRecord<S>,
    pub pubkey: P,
}

/// The source of a message.
#[derive(Clone, Debug, PartialEq, Eq)]
pub struct PeerSource<N> {
    pub id: N,
    pub addr: SocketAddr,
}

/// A timer of the discovery protocol.
#[derive(Clone, Copy, Debug, PartialEq, Eq, Hash, Structural)]
pub enum TimerKind {
    SendPing,
    PingTimeout,
    RetryPeerLookup { lookup_id: u32 },
    Refresh,
    FullNodeRaptorcastRequest,
}

/// What is to be done about a timer.
#[derive(Clone, Debug)]
pub enum PeerDiscoveryTimerCommand<E, N> {
    Schedule { node_id: N, timer_kind: TimerKind, duration_ns: u64, on_timeout: E },
    ScheduleReset { node_id: N, timer_kind: TimerKind },
}

/// The records that an entry may stand for, in the order in which they are
/// tried: for an address with a port, one without plain UDP and one with plain
/// UDP on the same port; for an address alone, one with TCP on the port of
/// authenticated UDP.
pub open spec fn candidates(
    addr: Seq<char>,
    auth_port: u16,
    direct_udp_port: Option<u16>,
    seq: u64,
) -> Option<Seq<RecordView>> {
    match address::socket_of_text(addr) {
        Some(socket) => Some(
            seq![
                name_record::plain_record(
                    socket.ip,
                    socket.port,
                    None,
                    auth_port,
                    direct_udp_port,
                    seq,
                ),
                name_record::plain_record(
                    socket.ip,
                    socket.port,
                    Some(socket.port),
                    auth_port,
                    direct_udp_port,
                    seq,
                ),
            ],
        ),
        None => match address::ip_of_text(addr) {
            Some(ip) => Some(
                seq![
                    name_record::plain_record(
                        ip,
                        auth_port,
                        None,
                        auth_port,
                        direct_udp_port,
                        seq,
                    ),
                ],
            ),
            None => None,
        },
    }
}

/// Whether a check of a signature on a record can come out as `outcome`.
pub open spec fn check_gives<S, P, E, F: Fn(&S, &Vec<u8>, &P) -> Result<(), E>>(
    verify: F,
    signature: S,
    pubkey: P,
    record: RecordView,
    outcome: Result<(), E>,
) -> bool {
    exists|bytes: Vec<u8>|
        bytes@ == name_record::record_item(record) && #[trigger] call_ensures(
            verify,
            (&signature, &bytes, &pubkey),
            outcome,
        )
}

/// Whether a check of a signature on a record can fail.
pub open spec fn check_fails<S, P, E, F: Fn(&S, &Vec<u8>, &P) -> Result<(), E>>(
    verify: F,
    signature: S,
    pubkey: P,
    record: RecordView,
) -> bool {
    exists|e: E| #[trigger] check_gives(verify, signature, pubkey, record, Err(e))
}

/// Whether a conversion can come out as `r`: the first record whose signature
/// holds, or the last error.
pub open spec fn converted<S, P, E, F: Fn(&S, &Vec<u8>, &P) -> Result<(), E>>(
    verify: F,
    signature: S,
    pubkey: P,
    tried: Seq<RecordView>,
    r: Result<MonadNameRecord<S>, PeerEntryConversionError<E>>,
) -> bool {
    match r {
        Ok(record) => {
            &&& record.signature == signature
            &&& record.name_record.wf()
            &&& exists|i: int|
                {
                    &&& 0 <= i < tried.len()
                    &&& record.name_record@ == #[trigger] tried[i]
                    &&& check_gives(verify, signature, pubkey, tried[i], Ok::<(), E>(()))
                    &&& forall|j: int|
                        0 <= j < i ==> check_fails(
                            verify,
                            signature,
                            pubkey,
                            #[trigger] tried[j],
                        )
                }
        },
        Err(PeerEntryConversionError::InvalidSignature(e)) => {
            &&& tried.len() > 0
            &&& check_gives(verify, signature, pubkey, tried.last(), Err::<(), E>(e))
            &&& forall|j: int|
                0 <= j < tried.len() ==> check_fails(
                    verify,
                    signature,
                    pubkey,
                    #[trigger] tried[j],
                )
        },
        Err(_) => false,
    }
}

/// Whether an entry can lead to `r`.
pub open spec fn leads_to<S, P, E, F: Fn(&S, &Vec<u8>, &P) -> Result<(), E>>(
    entry: PeerEntry<S, P>,
    verify: F,
    r: Result<MonadNameRecord<S>, PeerEntryConversionError<E>>,
) -> bool {
    match entry.auth_port {
        None => r is Err && r->Err_0 is MissingAuthenticatedUdpPort,
        Some(auth_port) => match candidates(
            entry.addr@,
            auth_port,
            entry.direct_udp_port,
            entry.record_seq_num,
        ) {
            None => r is Err && r->Err_0 is InvalidAddress,
            Some(tried) => converted(verify, entry.signature, entry.pubkey, tried, r),
        },
    }
}

/// Whether settings can lead to `r`.
pub open spec fn config_leads_to<S, P, E, F: Fn(&S, &Vec<u8>, &P) -> Result<(), E>>(
    config: NodeBootstrapPeerConfig<S, P>,
    verify: F,
    r: Result<MonadNameRecord<S>, PeerConfigConversionError>,
) -> bool {
    match config.auth_port {
        None => r is Err && r->Err_0 is MissingAuthenticatedUdpPort,
        Some(auth_port) => match candidates(
            config.address@,
            auth_port,
            config.direct_udp_port,
            config.record_seq_num,
        ) {
            None => r is Err && r->Err_0 is InvalidAddress,
            Some(tried) => match r {
                Ok(record) => converted::<S, P, E, F>(
                    verify,
                    config.name_record_sig,
                    config.secp256k1_pubkey,
                    tried,
                    Ok(record),
                ),
                Err(e) => e is InvalidSignature && exists|error: E| #[trigger]
                    converted::<S, P, E, F>(
                        verify,
                        config.name_record_sig,
                        config.secp256k1_pubkey,
                        tried,
                        Err(PeerEntryConversionError::InvalidSignature(error)),
                    ),
            },
        },
    }
}

fn check_candidate<S, P, E, F: Fn(&S, &Vec<u8>, &P) -> Result<(), E>>(
    verify: &F,
    signature: &S,
    pubkey: &P,
    candidate: &NameRecord,
) -> (r: Result<(), E>)
    requires
        forall|s: &S, bytes: &Vec<u8>, p: &P| call_requires(*verify, (s, bytes, p)),
    ensures
        check_gives(*verify, *signature, *pubkey, candidate@, r),
{
    let encoded: Vec<u8> = candidate.encode();
    verify(signature, &encoded, pubkey)
}

impl<S: Copy, P> PeerEntry<S, P> {
    /// The record of the peer. `verify` checks a signature on some bytes.
    pub fn to_record<E, F: Fn(&S, &Vec<u8>, &P) -> Result<(), E>>(&self, verify: F) -> (r: Result<
        MonadNameRecord<S>,
        PeerEntryConversionError<E>,
    >)
        requires
            forall|s: &S, bytes: &Vec<u8>, p: &P| call_requires(verify, (s, bytes, p)),
        ensures
            leads_to(*self, verify, r),
    {
        let auth_port: u16 = match self.auth_port {
            Some(port) => port,
            None => {
                return Err(PeerEntryConversionError::MissingAuthenticatedUdpPort);
            },
        };
        match SocketAddrV4::parse(self.addr.as_str()) {
            Some(socket) => {
                let first: NameRecord = NameRecord::new_with_ports(
                    socket.ip,
                    socket.port,
                    None,
                    auth_port,
                    self.direct_udp_port,
                    self.record_seq_num,
                );
                let second: NameRecord = NameRecord::new_with_ports(
                    socket.ip,
                    socket.port,
                    Some(socket.port),
                    auth_port,
                    self.direct_udp_port,
                    self.record_seq_num,
                );
                let ghost tried = candidates(
                    self.addr@,
                    auth_port,
                    self.direct_udp_port,
                    self.record_seq_num,
                )->Some_0;
                match check_candidate(&verify, &self.signature, &self.pubkey, &first) {
                    Ok(unit) => {
                        proof {
                            assert(tried[0] == first@);
                            assert(unit == ());
                            assert(check_gives(
                                verify,
                                self.signature,
                                self.pubkey,
                                tried[0],
                                Ok::<(), E>(unit),
                            ));
                        }
                        Ok(MonadNameRecord { name_record: first, signature: self.signature })
                    },
                    Err(error) => {
                        proof {
                            assert(tried[0] == first@);
                            let outcome = Err::<(), E>(error);
                            assert(check_gives(
                                verify,
                                self.signature,
                                self.pubkey,
                                tried[0],
                                outcome,
                            ));
                            assert(check_fails(verify, self.signature, self.pubkey, tried[0]));
                        }
                        match check_candidate(&verify, &self.signature, &self.pubkey, &second) {
                            Ok(unit) => {
                                proof {
                                    assert(tried[1] == second@);
                                    assert(unit == ());
                                    assert(check_gives(
                                        verify,
                                        self.signature,
                                        self.pubkey,
                                        tried[1],
                                        Ok::<(), E>(unit),
                                    ));
                                }
                                Ok(
                                    MonadNameRecord {
                                        name_record: second,
                                        signature: self.signature,
                                    },
                                )
                            },
                            Err(e) => {
                                assert(tried.last() == second@);
                                assert(check_fails(verify, self.signature, self.pubkey, tried[1]));
                                Err(PeerEntryConversionError::InvalidSignature(e))
                            },
                        }
                    },
                }
            },
            None => match Ipv4Addr::parse(self.addr.as_str()) {
                Some(ip) => {
                    let only: NameRecord = NameRecord::new_with_ports(
                        ip,
                        auth_port,
                        None,
                        auth_port,
                        self.direct_udp_port,
                        self.record_seq_num,
                    );
                    let ghost tried = candidates(
                        self.addr@,
                        auth_port,
                        self.direct_udp_port,
                        self.record_seq_num,
                    )->Some_0;
                    match check_candidate(&verify, &self.signature, &self.pubkey, &only) {
                        Ok(unit) => {
                            proof {
                                assert(tried[0] == only@);
                                assert(unit == ());
                                assert(check_gives(
                                    verify,
                                    self.signature,
                                    self.pubkey,
                                    tried[0],
                                    Ok::<(), E>(unit),
                                ));
                            }
                            Ok(MonadNameRecord { name_record: only, signature: self.signature })
                        },
                        Err(e) => {
                            assert(tried.last() == only@);
                            assert(check_fails(verify, self.signature, self.pubkey, tried[0]));
                            Err(PeerEntryConversionError::InvalidSignature(e))
                        },
                    }
                },
                None => Err(PeerEntryConversionError::InvalidAddress),
            },
        }
    }
}

/// The address under which a record is listed: without the port where it is
/// that of authenticated UDP and there is no plain UDP.
pub open spec fn listed_address(r: RecordView) -> Seq<char> {
    let tcp = ports::port_for(r.ports, PortTag::TCP)->Some_0;
    if ports::port_for(r.ports, PortTag::UDP) is None && ports::port_for(
        r.ports,
        PortTag::AuthenticatedUDP,
    ) == Some(tcp) {
        address::ip_text(r.ip)
    } else {
        address::socket_text(SocketAddrV4 { ip: r.ip, port: tcp })
    }
}

/// Whether `entry` lists a record with its signature and the key behind it.
pub open spec fn lists<S, P>(
    entry: PeerEntry<S, P>,
    record: RecordView,
    signature: S,
    pubkey: P,
) -> bool {
    &&& entry.pubkey == pubkey
    &&& entry.addr@ == listed_address(record)
    &&& entry.signature == signature
    &&& entry.record_seq_num == record.seq
    &&& entry.auth_port == ports::port_for(record.ports, PortTag::AuthenticatedUDP)
    &&& entry.direct_udp_port == ports::port_for(record.ports, PortTag::DirectUDP)
}

/// Whether `config` lists a record with its signature and the key behind it.
pub open spec fn config_lists<S, P>(
    config: NodeBootstrapPeerConfig<S, P>,
    record: RecordView,
    signature: S,
    pubkey: P,
) -> bool {
    &&& config.secp256k1_pubkey == pubkey
    &&& config.address@ == listed_address(record)
    &&& config.name_record_sig == signature
    &&& config.record_seq_num == record.seq
    &&& config.auth_port == ports::port_for(record.ports, PortTag::AuthenticatedUDP)
    &&& config.direct_udp_port == ports::port_for(record.ports, PortTag::DirectUDP)
}

impl<S> MonadNameRecord<S> {
    /// The record with the key that signed it.
    pub fn with_pubkey<P>(&self, pubkey: P) -> (r: MonadNameRecordWithPubkey<'_, S, P>)
        ensures
            r.record == self,
            r.pubkey == pubkey,
    {
        MonadNameRecordWithPubkey { record: self, pubkey }
    }
}

impl<'a, S: Copy, P> MonadNameRecordWithPubkey<'a, S, P> {
    /// The entry of the peer.
    pub fn into_peer_entry(self) -> (r: PeerEntry<S, P>)
        requires
            self.record.name_record.wf(),
        ensures
            lists(r, self.record.name_record@, self.record.signature, self.pubkey),
    {
        let record: &NameRecord = &self.record.name_record;
        let auth_port: u16 = record.authenticated_udp_port();
        let addr: String = if record.udp_port().is_none() && record.tcp_port() == auth_port {
            record.ip().text()
        } else {
            record.tcp_socket().text()
        };
        PeerEntry {
            pubkey: self.pubkey,
            addr,
            signature: self.record.signature,
            record_seq_num: record.seq(),
            auth_port: Some(auth_port),
            direct_udp_port: record.direct_udp_port(),
        }
    }

    /// The settings of the peer.
    pub fn into_bootstrap_config(self) -> (r: NodeBootstrapPeerConfig<S, P>)
        requires
            self.record.name_record.wf(),
        ensures
            config_lists(r, self.record.name_record@, self.record.signature, self.pubkey),
    {
        let entry: PeerEntry<S, P> = self.into_peer_entry();
        NodeBootstrapPeerConfig {
            address: entry.addr,
            record_seq_num: entry.record_seq_num,
            secp256k1_pubkey: entry.pubkey,
            name_record_sig: entry.signature,
            auth_port: entry.auth_port,
            direct_udp_port: entry.direct_udp_port,
        }
    }
}

impl<S: Copy> MonadNameRecord<S> {
    /// The entry of the peer that signed the record. `recover` finds the key
    /// for a signature on some bytes.
    pub fn to_peer_entry<P, E, F: Fn(&S, &Vec<u8>) -> Result<P, E>>(&self, recover: F) -> (r:
        Result<PeerEntry<S, P>, E>)
        requires
            self.name_record.wf(),
            forall|bytes: &Vec<u8>| call_requires(recover, (&self.signature, bytes)),
        ensures
            exists|key: Result<P, E>|
                {
                    &&& #[trigger] name_record::recovery_gives(
                        self.name_record@,
                        self.signature,
                        recover,
                        key,
                    )
                    &&& match key {
                        Ok(pubkey) => r matches Ok(entry) && lists(
                            entry,
                            self.name_record@,
                            self.signature,
                            pubkey,
                        ),
                        Err(e) => r == Err::<PeerEntry<S, P>, E>(e),
                    }
                },
    {
        let key: Result<P, E> = self.recover_pubkey(recover);
        match key {
            Ok(pubkey) => Ok(self.with_pubkey(pubkey).into_peer_entry()),
            Err(e) => Err(e),
        }
    }
}

impl<S: Copy, P: Copy> NodeBootstrapPeerConfig<S, P> {
    /// The record of the peer. `verify` checks a signature on some bytes.
    pub fn to_record<E, F: Fn(&S, &Vec<u8>, &P) -> Result<(), E>>(&self, verify: F) -> (r: Result<
        MonadNameRecord<S>,
        PeerConfigConversionError,
    >)
        requires
            forall|s: &S, bytes: &Vec<u8>, p: &P| call_requires(verify, (s, bytes, p)),
        ensures
            config_leads_to::<S, P, E, F>(*self, verify, r),
    {
        let entry = PeerEntry {
            pubkey: self.secp256k1_pubkey,
            addr: self.address.clone(),
            signature: self.name_record_sig,
            record_seq_num: self.record_seq_num,
            auth_port: self.auth_port,
            direct_udp_port: self.direct_udp_port,
        };
        match entry.to_record(verify) {
            Ok(record) => Ok(record),
            Err(PeerEntryConversionError::InvalidAddress) => Err(
                PeerConfigConversionError::InvalidAddress,
            ),
            Err(PeerEntryConversionError::MissingAuthenticatedUdpPort) => Err(
                PeerConfigConversionError::MissingAuthenticatedUdpPort,
            ),
            Err(PeerEntryConversionError::InvalidSignature(_)) => Err(
                PeerConfigConversionError::InvalidSignature,
            ),
        }
    }
}

/// A record without capabilities whose plain UDP, if there is any, uses the port
/// of TCP.
pub open spec fn listed_record(
    ip: Ipv4Addr,
    tcp: u16,
    with_udp: bool,
    auth_port: u16,
    direct_udp_port: Option<u16>,
    seq: u64,
) -> RecordView {
    if with_udp {
        name_record::plain_record(ip, tcp, Some(tcp), auth_port, direct_udp_port, seq)
    } else {
        name_record::plain_record(ip, tcp, None, auth_port, direct_udp_port, seq)
    }
}

/// An entry leads back to the record that it was made from: that record is
/// among those that are tried, and no other one of them has the same item, so
/// that no signature on the record holds for another one. This needs plain UDP,
/// where there is any, on the port of TCP.
pub proof fn entry_leads_back(
    ip: Ipv4Addr,
    tcp: u16,
    with_udp: bool,
    auth_port: u16,
    direct_udp_port: Option<u16>,
    seq: u64,
)
    ensures
        ({
            let record = listed_record(ip, tcp, with_udp, auth_port, direct_udp_port, seq);
            let tried = candidates(listed_address(record), auth_port, direct_udp_port, seq);
            &&& tried is Some
            &&& tried->Some_0.contains(record)
            &&& forall|other: RecordView|
                tried->Some_0.contains(other) && #[trigger] name_record::record_item(other)
                    == name_record::record_item(record) ==> other == record
        }),
{
    let record = listed_record(ip, tcp, with_udp, auth_port, direct_udp_port, seq);
    name_record::plain_record_ports(ip, tcp, None, auth_port, direct_udp_port, seq);
    name_record::plain_record_ports(ip, tcp, Some(tcp), auth_port, direct_udp_port, seq);
    let addr = listed_address(record);
    address::socket_roundtrip(SocketAddrV4 { ip, port: tcp });
    address::ip_roundtrip(ip);
    address::ip_text_is_no_socket(ip);
    let tried = candidates(addr, auth_port, direct_udp_port, seq)->Some_0;
    if with_udp {
        assert(tried[1] == record);
    } else {
        assert(tried[0] == record);
    }
    assert forall|other: RecordView|
        tried.contains(other) && #[trigger] name_record::record_item(other)
            == name_record::record_item(record) implies other == record by {
        assert(other.ports.len() <= 8);
        name_record::record_item_is_injective(other, record);
    }
}

/// Whether a check of `signature` with `pubkey` accepts exactly the bytes of a
/// record.
pub open spec fn accepts_only<S, P, E, F: Fn(&S, &Vec<u8>, &P) -> Result<(), E>>(
    verify: F,
    signature: S,
    pubkey: P,
    record: RecordView,
) -> bool {
    forall|bytes: Vec<u8>, outcome: Result<(), E>| #[trigger]
        call_ensures(verify, (&signature, &bytes, &pubkey), outcome) ==> (outcome is Ok <==> bytes@
            == name_record::record_item(record))
}

/// A record comes back from the entry that was made from it, with its
/// signature: the check of the signature has to accept exactly the bytes of the
/// record. This needs plain UDP, where there is any, on the port of TCP.
pub proof fn peer_entry_roundtrip<S, P, E, F: Fn(&S, &Vec<u8>, &P) -> Result<(), E>>(
    ip: Ipv4Addr,
    tcp: u16,
    with_udp: bool,
    auth_port: u16,
    direct_udp_port: Option<u16>,
    seq: u64,
    entry: PeerEntry<S, P>,
    verify: F,
    r: Result<MonadNameRecord<S>, PeerEntryConversionError<E>>,
)
    requires
        ({
            let record = listed_record(ip, tcp, with_udp, auth_port, direct_udp_port, seq);
            &&& lists(entry, record, entry.signature, entry.pubkey)
            &&& accepts_only(verify, entry.signature, entry.pubkey, record)
        }),
        leads_to(entry, verify, r),
    ensures
        r matches Ok(back) && back.signature == entry.signature && back.name_record@
            == listed_record(ip, tcp, with_udp, auth_port, direct_udp_port, seq),
{
    let record = listed_record(ip, tcp, with_udp, auth_port, direct_udp_port, seq);
    name_record::plain_record_ports(ip, tcp, None, auth_port, direct_udp_port, seq);
    name_record::plain_record_ports(ip, tcp, Some(tcp), auth_port, direct_udp_port, seq);
    entry_leads_back(ip, tcp, with_udp, auth_port, direct_udp_port, seq);
    let tried = candidates(listed_address(record), auth_port, direct_udp_port, seq)->Some_0;
    let at = choose|i: int| 0 <= i < tried.len() && tried[i] == record;
    lemma_right_one_found(verify, entry.signature, entry.pubkey, tried, record, at, r);
}

proof fn lemma_right_one_found<S, P, E, F: Fn(&S, &Vec<u8>, &P) -> Result<(), E>>(
    verify: F,
    signature: S,
    pubkey: P,
    tried: Seq<RecordView>,
    record: RecordView,
    at: int,
    r: Result<MonadNameRecord<S>, PeerEntryConversionError<E>>,
)
    requires
        accepts_only(verify, signature, pubkey, record),
        converted(verify, signature, pubkey, tried, r),
        0 <= at < tried.len(),
        tried[at] == record,
        forall|other: RecordView|
            tried.contains(other) && #[trigger] name_record::record_item(other)
                == name_record::record_item(record) ==> other == record,
    ensures
        r matches Ok(back) && back.signature == signature && back.name_record@ == record,
{
    assert(!check_fails(verify, signature, pubkey, record)) by {
        if check_fails(verify, signature, pubkey, record) {
            let e = choose|e: E| #[trigger] check_gives(verify, signature, pubkey, record, Err(e));
            let bytes = choose|bytes: Vec<u8>|
                bytes@ == name_record::record_item(record) && #[trigger] call_ensures(
                    verify,
                    (&signature, &bytes, &pubkey),
                    Err::<(), E>(e),
                );
        }
    }
    match r {
        Ok(back) => {
            let i = choose|i: int|
                {
                    &&& 0 <= i < tried.len()
                    &&& back.name_record@ == #[trigger] tried[i]
                    &&& check_gives(verify, signature, pubkey, tried[i], Ok::<(), E>(()))
                };
            let bytes = choose|bytes: Vec<u8>|
                bytes@ == name_record::record_item(tried[i]) && #[trigger] call_ensures(
                    verify,
                    (&signature, &bytes, &pubkey),
                    Ok::<(), E>(()),
                );
            assert(name_record::record_item(tried[i]) == name_record::record_item(record));
            assert(tried.contains(tried[i]));
        },
        Err(_) => {
            assert(check_fails(verify, signature, pubkey, tried[at]));
        },
    }
}

/// A record comes back from the settings that were made from it, with its
/// signature, on the same terms as from an entry.
pub proof fn bootstrap_config_roundtrip<S, P, E, F: Fn(&S, &Vec<u8>, &P) -> Result<(), E>>(
    ip: Ipv4Addr,
    tcp: u16,
    with_udp: bool,
    auth_port: u16,
    direct_udp_port: Option<u16>,
    seq: u64,
    config: NodeBootstrapPeerConfig<S, P>,
    verify: F,
    r: Result<MonadNameRecord<S>, PeerConfigConversionError>,
)
    requires
        ({
            let record = listed_record(ip, tcp, with_udp, auth_port, direct_udp_port, seq);
            &&& config_lists(config, record, config.name_record_sig, config.secp256k1_pubkey)
            &&& accepts_only(verify, config.name_record_sig, config.secp256k1_pubkey, record)
        }),
        config_leads_to::<S, P, E, F>(config, verify, r),
    ensures
        r matches Ok(back) && back.signature == config.name_record_sig && back.name_record@
            == listed_record(ip, tcp, with_udp, auth_port, direct_udp_port, seq),
{
    let record = listed_record(ip, tcp, with_udp, auth_port, direct_udp_port, seq);
    name_record::plain_record_ports(ip, tcp, None, auth_port, direct_udp_port, seq);
    name_record::plain_record_ports(ip, tcp, Some(tcp), auth_port, direct_udp_port, seq);
    entry_leads_back(ip, tcp, with_udp, auth_port, direct_udp_port, seq);
    let tried = candidates(listed_address(record), auth_port, direct_udp_port, seq)->Some_0;
    let at = choose|i: int| 0 <= i < tried.len() && tried[i] == record;
    let signature = config.name_record_sig;
    let pubkey = config.secp256k1_pubkey;
    match r {
        Ok(back) => {
            lemma_right_one_found::<S, P, E, F>(
                verify,
                signature,
                pubkey,
                tried,
                record,
                at,
                Ok(back),
            );
        },
        Err(_) => {
            let error = choose|error: E| #[trigger]
                converted::<S, P, E, F>(
                    verify,
                    signature,
                    pubkey,
                    tried,
                    Err(PeerEntryConversionError::InvalidSignature(error)),
                );
            lemma_right_one_found::<S, P, E, F>(
                verify,
                signature,
                pubkey,
                tried,
                record,
                at,
                Err(PeerEntryConversionError::InvalidSignature(error)),
            );
        },
    }
}

/// Whether a check with `pubkey` accepts a signature made with `key` on exactly
/// the bytes that were signed.
pub open spec fn checks_what_was_signed<
    S,
    K,
    P,
    E,
    G: Fn(&Vec<u8>, &K) -> S,
    F: Fn(&S, &Vec<u8>, &P) -> Result<(), E>,
>(sign: G, verify: F, key: K, pubkey: P) -> bool {
    forall|signed: Vec<u8>, bytes: Vec<u8>, signature: S, outcome: Result<(), E>| #[trigger]
        call_ensures(sign, (&signed, &key), signature) && #[trigger] call_ensures(
            verify,
            (&signature, &bytes, &pubkey),
            outcome,
        ) ==> (outcome is Ok <==> bytes@ == signed@)
}

proof fn lemma_accepts_only<
    S,
    K,
    P,
    E,
    G: Fn(&Vec<u8>, &K) -> S,
    F: Fn(&S, &Vec<u8>, &P) -> Result<(), E>,
>(sign: G, verify: F, key: K, pubkey: P, record: RecordView, signature: S)
    requires
        checks_what_was_signed(sign, verify, key, pubkey),
        name_record::signing_gives(record, sign, key, signature),
    ensures
        accepts_only(verify, signature, pubkey, record),
{
    let signed = choose|bytes: Vec<u8>|
        bytes@ == name_record::record_item(record) && #[trigger] call_ensures(
            sign,
            (&bytes, &key),
            signature,
        );
    assert forall|bytes: Vec<u8>, outcome: Result<(), E>| #[trigger]
        call_ensures(verify, (&signature, &bytes, &pubkey), outcome) implies (outcome is Ok
        <==> bytes@ == name_record::record_item(record)) by {
        assert(call_ensures(sign, (&signed, &key), signature));
    }
}

/// A signed record goes all the way: it is signed, the key is recovered from
/// it, the entry made with that key is turned back, and the same record and the
/// same signature come out. Of the scheme this takes that it recovers the
/// signer's key from the bytes signed, and that its check accepts a signature on
/// those bytes and no others.
pub proof fn signed_record_survives_its_entry<
    S,
    K,
    P,
    RE,
    E,
    G: Fn(&Vec<u8>, &K) -> S,
    R: Fn(&S, &Vec<u8>) -> Result<P, RE>,
    F: Fn(&S, &Vec<u8>, &P) -> Result<(), E>,
>(
    ip: Ipv4Addr,
    tcp: u16,
    with_udp: bool,
    auth_port: u16,
    direct_udp_port: Option<u16>,
    seq: u64,
    sign: G,
    recover: R,
    verify: F,
    key: K,
    pubkey: P,
    record: MonadNameRecord<S>,
    recovered: Result<P, RE>,
    entry: PeerEntry<S, P>,
    back: Result<MonadNameRecord<S>, PeerEntryConversionError<E>>,
)
    requires
        name_record::recovers(sign, recover, key, pubkey),
        checks_what_was_signed(sign, verify, key, pubkey),
        record.name_record@ == listed_record(ip, tcp, with_udp, auth_port, direct_udp_port, seq),
        name_record::signing_gives(record.name_record@, sign, key, record.signature),
        name_record::recovery_gives(record.name_record@, record.signature, recover, recovered),
        recovered matches Ok(found) ==> lists(entry, record.name_record@, record.signature, found),
        leads_to(entry, verify, back),
    ensures
        recovered == Ok::<P, RE>(pubkey),
        back matches Ok(r) && r.name_record@ == record.name_record@ && r.signature
            == record.signature,
{
    name_record::recovery_finds_the_signer(
        record.name_record@,
        record,
        sign,
        recover,
        key,
        pubkey,
        recovered,
    );
    lemma_accepts_only(sign, verify, key, pubkey, record.name_record@, record.signature);
    peer_entry_roundtrip(
        ip,
        tcp,
        with_udp,
        auth_port,
        direct_udp_port,
        seq,
        entry,
        verify,
        back,
    );
}

/// As [`signed_record_survives_its_entry`], through the settings of a node.
pub proof fn signed_record_survives_its_settings<
    S,
    K,
    P,
    RE,
    E,
    G: Fn(&Vec<u8>, &K) -> S,
    R: Fn(&S, &Vec<u8>) -> Result<P, RE>,
    F: Fn(&S, &Vec<u8>, &P) -> Result<(), E>,
>(
    ip: Ipv4Addr,
    tcp: u16,
    with_udp: bool,
    auth_port: u16,
    direct_udp_port: Option<u16>,
    seq: u64,
    sign: G,
    recover: R,
    verify: F,
    key: K,
    pubkey: P,
    record: MonadNameRecord<S>,
    recovered: Result<P, RE>,
    config: NodeBootstrapPeerConfig<S, P>,
    back: Result<MonadNameRecord<S>, PeerConfigConversionError>,
)
    requires
        name_record::recovers(sign, recover, key, pubkey),
        checks_what_was_signed(sign, verify, key, pubkey),
        record.name_record@ == listed_record(ip, tcp, with_udp, auth_port, direct_udp_port, seq),
        name_record::signing_gives(record.name_record@, sign, key, record.signature),
        name_record::recovery_gives(record.name_record@, record.signature, recover, recovered),
        recovered matches Ok(found) ==> config_lists(
            config,
            record.name_record@,
            record.signature,
            found,
        ),
        config_leads_to::<S, P, E, F>(config, verify, back),
    ensures
        recovered == Ok::<P, RE>(pubkey),
        back matches Ok(r) && r.name_record@ == record.name_record@ && r.signature
            == record.signature,
{
    name_record::recovery_finds_the_signer(
        record.name_record@,
        record,
        sign,
        recover,
        key,
        pubkey,
        recovered,
    );
    lemma_accepts_only(sign, verify, key, pubkey, record.name_record@, record.signature);
    bootstrap_config_roundtrip::<S, P, E, F>(
        ip,
        tcp,
        with_udp,
        auth_port,
        direct_udp_port,
        seq,
        config,
        verify,
        back,
    );
}

/// What an entry may stand for: with an address and a port, the record of that
/// TCP port without a UDP port, and then the one whose UDP port is the same;
/// with an address alone, the one whose TCP port is that for authenticated UDP.
/// All have the entry's other ports and its number.
pub proof fn entries_stand_for_records(
    addr: Seq<char>,
    auth_port: u16,
    direct_udp_port: Option<u16>,
    seq: u64,
)
    ensures
        match candidates(addr, auth_port, direct_udp_port, seq) {
            Some(tried) => {
                &&& forall|i: int|
                    0 <= i < tried.len() ==> {
                        let r = #[trigger] tried[i];
                        &&& r.seq == seq
                        &&& r.capabilities == 0
                        &&& ports::port_for(r.ports, PortTag::AuthenticatedUDP) == Some(auth_port)
                        &&& ports::port_for(r.ports, PortTag::DirectUDP) == direct_udp_port
                    }
                &&& match address::socket_of_text(addr) {
                    Some(socket) => {
                        &&& tried.len() == 2
                        &&& tried[0].ip == socket.ip && tried[1].ip == socket.ip
                        &&& ports::port_for(tried[0].ports, PortTag::TCP) == Some(socket.port)
                        &&& ports::port_for(tried[1].ports, PortTag::TCP) == Some(socket.port)
                        &&& ports::port_for(tried[0].ports, PortTag::UDP) is None
                        &&& ports::port_for(tried[1].ports, PortTag::UDP) == Some(socket.port)
                    },
                    None => {
                        &&& tried.len() == 1
                        &&& address::ip_of_text(addr) == Some(tried[0].ip)
                        &&& ports::port_for(tried[0].ports, PortTag::TCP) == Some(auth_port)
                        &&& ports::port_for(tried[0].ports, PortTag::UDP) is None
                    },
                }
            },
            None => address::socket_of_text(addr) is None && address::ip_of_text(addr) is None,
        },
{
    if let Some(socket) = address::socket_of_text(addr) {
        name_record::plain_record_ports(
            socket.ip,
            socket.port,
            None,
            auth_port,
            direct_udp_port,
            seq,
        );
        name_record::plain_record_ports(
            socket.ip,
            socket.port,
            Some(socket.port),
            auth_port,
            direct_udp_port,
            seq,
        );
    } else if let Some(ip) = address::ip_of_text(addr) {
        name_record::plain_record_ports(ip, auth_port, None, auth_port, direct_udp_port, seq);
    }
}

/// An entry is refused before any signature is checked if and only if it has no
/// port for authenticated UDP, or its address is none.
pub proof fn incomplete_entries_are_refused<S, P, E, F: Fn(&S, &Vec<u8>, &P) -> Result<(), E>>(
    entry: PeerEntry<S, P>,
    verify: F,
    r: Result<MonadNameRecord<S>, PeerEntryConversionError<E>>,
)
    requires
        leads_to(entry, verify, r),
    ensures
        entry.auth_port is None <==> r is Err && r->Err_0 is MissingAuthenticatedUdpPort,
        entry.auth_port is Some && address::socket_of_text(entry.addr@) is None
            && address::ip_of_text(entry.addr@) is None <==> r is Err && r->Err_0 is InvalidAddress,
        r matches Ok(record) ==> record.signature == entry.signature && record.name_record@.seq
            == entry.record_seq_num && ports::port_for(
            record.name_record@.ports,
            PortTag::AuthenticatedUDP,
        ) == entry.auth_port && ports::port_for(record.name_record@.ports, PortTag::DirectUDP)
            == entry.direct_udp_port,
{
    if let Some(auth_port) = entry.auth_port {
        entries_stand_for_records(
            entry.addr@,
            auth_port,
            entry.direct_udp_port,
            entry.record_seq_num,
        );
    }
}

/// A record is listed with its TCP port, unless that is its port for
/// authenticated UDP and it has no plain UDP port: then its address says enough.
pub proof fn records_are_listed_with_their_port(r: RecordView, tcp: u16)
    requires
        ports::port_for(r.ports, PortTag::TCP) == Some(tcp),
    ensures
        ports::port_for(r.ports, PortTag::UDP) is None && ports::port_for(
            r.ports,
            PortTag::AuthenticatedUDP,
        ) == Some(tcp) ==> listed_address(r) == address::ip_text(r.ip),
        ports::port_for(r.ports, PortTag::UDP) is Some || ports::port_for(
            r.ports,
            PortTag::AuthenticatedUDP,
        ) != Some(tcp) ==> listed_address(r) == address::ip_text(r.ip) + seq![':']
            + text::decimal_text(tcp as nat),
{
    address::addresses_are_four_numbers(r.ip, tcp);
}

/// The first record whose signature holds is taken: where no check of the first
/// one can fail, it is that one, and where all can only fail, the error is that
/// of the last.
pub proof fn the_first_sound_record_is_taken<S, P, E, F: Fn(&S, &Vec<u8>, &P) -> Result<(), E>>(
    entry: PeerEntry<S, P>,
    verify: F,
    r: Result<MonadNameRecord<S>, PeerEntryConversionError<E>>,
    auth_port: u16,
    tried: Seq<RecordView>,
    at: int,
)
    requires
        leads_to(entry, verify, r),
        entry.auth_port == Some(auth_port),
        candidates(entry.addr@, auth_port, entry.direct_udp_port, entry.record_seq_num) == Some(
            tried,
        ),
        0 <= at < tried.len(),
    ensures
        (forall|bytes: Vec<u8>, outcome: Result<(), E>|
            bytes@ == name_record::record_item(tried[0]) && #[trigger] call_ensures(
                verify,
                (&entry.signature, &bytes, &entry.pubkey),
                outcome,
            ) ==> outcome is Ok) ==> (r matches Ok(record) && record.name_record@ == tried[0]),
        (forall|bytes: Vec<u8>, outcome: Result<(), E>|
            bytes@ == name_record::record_item(tried[at]) && #[trigger] call_ensures(
                verify,
                (&entry.signature, &bytes, &entry.pubkey),
                outcome,
            ) ==> outcome is Err) ==> !(r matches Ok(record) && record.name_record@ == tried[at]),
        r matches Err(PeerEntryConversionError::InvalidSignature(e)) ==> exists|bytes: Vec<u8>|
            bytes@ == name_record::record_item(tried.last()) && #[trigger] call_ensures(
                verify,
                (&entry.signature, &bytes, &entry.pubkey),
                Err::<(), E>(e),
            ),
{
    let sig = entry.signature;
    let key = entry.pubkey;
    if check_fails(verify, sig, key, tried[0]) {
        let e = choose|e: E| #[trigger] check_gives(verify, sig, key, tried[0], Err(e));
        let bytes = choose|bytes: Vec<u8>|
            bytes@ == name_record::record_item(tried[0]) && #[trigger] call_ensures(
                verify,
                (&sig, &bytes, &key),
                Err::<(), E>(e),
            );
        assert(call_ensures(verify, (&sig, &bytes, &key), Err::<(), E>(e)));
    }
    if let Ok(record) = r {
        if record.name_record@ == tried[at] {
            assert(check_gives(verify, sig, key, tried[at], Ok::<(), E>(())));
            let bytes = choose|bytes: Vec<u8>|
                bytes@ == name_record::record_item(tried[at]) && #[trigger] call_ensures(
                    verify,
                    (&sig, &bytes, &key),
                    Ok::<(), E>(()),
                );
            assert(call_ensures(verify, (&sig, &bytes, &key), Ok::<(), E>(())));
        }
    }
}

/// Settings lead where an entry with the same contents leads.
pub proof fn settings_lead_where_entries_lead<S, P, E, F: Fn(&S, &Vec<u8>, &P) -> Result<(), E>>(
    entry: PeerEntry<S, P>,
    config: NodeBootstrapPeerConfig<S, P>,
    verify: F,
    record: MonadNameRecord<S>,
)
    requires
        config.address@ == entry.addr@,
        config.auth_port == entry.auth_port,
        config.direct_udp_port == entry.direct_udp_port,
        config.record_seq_num == entry.record_seq_num,
        config.name_record_sig == entry.signature,
        config.secp256k1_pubkey == entry.pubkey,
    ensures
        config_leads_to::<S, P, E, F>(config, verify, Ok(record)) <==> leads_to::<S, P, E, F>(
            entry,
            verify,
            Ok(record),
        ),
        config_leads_to::<S, P, E, F>(
            config,
            verify,
            Err(PeerConfigConversionError::InvalidAddress),
        ) <==> leads_to::<S, P, E, F>(entry, verify, Err(PeerEntryConversionError::InvalidAddress)),
        config_leads_to::<S, P, E, F>(
            config,
            verify,
            Err(PeerConfigConversionError::MissingAuthenticatedUdpPort),
        ) <==> leads_to::<S, P, E, F>(
            entry,
            verify,
            Err(PeerEntryConversionError::MissingAuthenticatedUdpPort),
        ),
        config_leads_to::<S, P, E, F>(
            config,
            verify,
            Err(PeerConfigConversionError::InvalidSignature),
        ) <==> exists|e: E| #[trigger]
            leads_to::<S, P, E, F>(
                entry,
                verify,
                Err(PeerEntryConversionError::InvalidSignature(e)),
            ),
{
    if let Some(auth_port) = entry.auth_port {
        if let Some(tried) = candidates(
            entry.addr@,
            auth_port,
            entry.direct_udp_port,
            entry.record_seq_num,
        ) {
            assert forall|e: E| #[trigger]
                leads_to::<S, P, E, F>(
                    entry,
                    verify,
                    Err(PeerEntryConversionError::InvalidSignature(e)),
                ) <==> converted::<S, P, E, F>(
                    verify,
                    entry.signature,
                    entry.pubkey,
                    tried,
                    Err(PeerEntryConversionError::InvalidSignature(e)),
                ) by {}
            if exists|e: E| #[trigger]
                converted::<S, P, E, F>(
                    verify,
                    entry.signature,
                    entry.pubkey,
                    tried,
                    Err(PeerEntryConversionError::InvalidSignature(e)),
                ) {
                let e = choose|e: E| #[trigger]
                    converted::<S, P, E, F>(
                        verify,
                        entry.signature,
                        entry.pubkey,
                        tried,
                        Err(PeerEntryConversionError::InvalidSignature(e)),
                    );
                assert(leads_to::<S, P, E, F>(
                    entry,
                    verify,
                    Err(PeerEntryConversionError::InvalidSignature(e)),
                ));
            }
        }
    }
}

/// An entry, and settings alike, list a record with all there is to check it by:
/// the key, the signature, the address, the number and the two ports.
pub proof fn entries_list_their_record<S, P>(
    entry: PeerEntry<S, P>,
    config: NodeBootstrapPeerConfig<S, P>,
    record: RecordView,
    signature: S,
    pubkey: P,
)
    ensures
        lists(entry, record, signature, pubkey) ==> {
            &&& entry.pubkey == pubkey && entry.signature == signature
            &&& entry.addr@ == listed_address(record)
            &&& entry.record_seq_num == record.seq
            &&& entry.auth_port == ports::port_for(record.ports, PortTag::AuthenticatedUDP)
            &&& entry.direct_udp_port == ports::port_for(record.ports, PortTag::DirectUDP)
        },
        config_lists(config, record, signature, pubkey) ==> {
            &&& config.secp256k1_pubkey == pubkey && config.name_record_sig == signature
            &&& config.address@ == listed_address(record)
            &&& config.record_seq_num == record.seq
            &&& config.auth_port == ports::port_for(record.ports, PortTag::AuthenticatedUDP)
            &&& config.direct_udp_port == ports::port_for(record.ports, PortTag::DirectUDP)
        },
{
}

} // verus!
