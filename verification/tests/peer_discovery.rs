use arrayvec::ArrayVec;
use monad_cosmos::peer_discovery::address::{Ipv4Addr, SocketAddr, SocketAddrV4, SocketAddrV6};
use monad_cosmos::peer_discovery::name_record;
use monad_cosmos::peer_discovery::name_record::{
    Capability, MonadNameRecord, NameRecord, WireNameRecordV2,
};
use monad_cosmos::peer_discovery::peers::{
    NodeBootstrapPeerConfig, PeerConfigConversionError, PeerDiscoveryTimerCommand, PeerEntry,
    PeerEntryConversionError, PeerSource, TimerKind,
};
use monad_cosmos::peer_discovery::ports::{Port, PortList, PortTag};
use monad_cosmos::rlp::RlpError;
use sha2::{Digest, Sha256};

type Key = [u8; 8];

#[derive(Clone, Copy, Debug, PartialEq, Eq)]
struct Seal {
    key: Key,
    digest: [u8; 32],
}

#[derive(Debug, PartialEq, Eq)]
struct Mismatch;

fn key_from(ikm: &[u8]) -> Key {
    let digest = Sha256::digest(ikm);
    let mut key = [0u8; 8];
    key.copy_from_slice(&digest[..8]);
    key
}

fn digest_for(bytes: &[u8], key: &Key) -> [u8; 32] {
    let mut hasher = Sha256::new();
    hasher.update(key);
    hasher.update(bytes);
    hasher.finalize().into()
}

fn sign(bytes: &Vec<u8>, key: &Key) -> Seal {
    Seal { key: *key, digest: digest_for(bytes, key) }
}

fn recover(seal: &Seal, bytes: &Vec<u8>) -> Result<Key, Mismatch> {
    if digest_for(bytes, &seal.key) == seal.digest {
        Ok(seal.key)
    } else {
        Err(Mismatch)
    }
}

fn verify(seal: &Seal, bytes: &Vec<u8>, key: &Key) -> Result<(), Mismatch> {
    match recover(seal, bytes) {
        Ok(found) if found == *key => Ok(()),
        _ => Err(Mismatch),
    }
}

fn seal_item(seal: &Seal) -> Vec<u8> {
    let mut bytes = seal.key.to_vec();
    bytes.extend_from_slice(&seal.digest);
    let mut out = Vec::new();
    alloy_rlp::Encodable::encode(bytes.as_slice(), &mut out);
    out
}

fn read_seal(bytes: &[u8]) -> (Seal, usize) {
    let mut rest = bytes;
    let payload = alloy_rlp::Header::decode_bytes(&mut rest, false).unwrap();
    let mut key = [0u8; 8];
    key.copy_from_slice(&payload[..8]);
    let mut digest = [0u8; 32];
    digest.copy_from_slice(&payload[8..]);
    (Seal { key, digest }, bytes.len() - rest.len())
}

fn decode_signed(bytes: &[u8]) -> MonadNameRecord<Seal> {
    let parts = name_record::decode_signed(bytes).unwrap();
    let (seal, length) = read_seal(parts.signature_bytes);
    parts.finish(seal, length).unwrap()
}

fn ip(s: &str) -> Ipv4Addr {
    Ipv4Addr::parse(s).unwrap()
}

fn socket(s: &str) -> SocketAddrV4 {
    SocketAddrV4::parse(s).unwrap()
}

fn decode(bytes: &[u8]) -> Result<NameRecord, RlpError> {
    NameRecord::decode(bytes).map(|(record, _)| record)
}

fn wire(ports: &[Port], capabilities: u64, seq: u64, ip: Ipv4Addr) -> Vec<u8> {
    let mut list = ArrayVec::new();
    for port in ports {
        list.push(*port);
    }
    WireNameRecordV2 { ip, ports: PortList(list), capabilities, seq }.encode()
}

#[test]
fn test_name_record_v4_rlp() {
    let name_record = NameRecord::new(ip("1.1.1.1"), 8000, 2);

    let encoded = name_record.encode();

    let result = decode(&encoded);
    assert!(result.is_ok());
    assert_eq!(result.unwrap(), name_record);
}

#[test]
fn test_name_record_v2() {
    let name_record = NameRecord::new_with_ports(ip("1.1.1.1"), 8000, Some(8001), 8001, None, 1);

    assert_eq!(name_record.tcp_socket(), socket("1.1.1.1:8000"));
    assert_eq!(name_record.udp_socket(), Some(socket("1.1.1.1:8001")));
}

#[test]
fn test_name_record_duplicate_port() {
    let encoded = wire(
        &[
            Port::new(PortTag::TCP, 8000),
            Port::new(PortTag::UDP, 8001),
            Port::new(PortTag::TCP, 8002),
        ],
        0,
        1,
        ip("1.1.1.1"),
    );

    let decoded = decode(&encoded);
    assert!(decoded.is_err());
    assert_eq!(decoded, Err(RlpError::Custom("duplicate port tag")));
}

#[test]
fn test_name_record_missing_tcp_port() {
    let encoded = wire(&[Port::new(PortTag::UDP, 8001)], 0, 1, ip("1.1.1.1"));

    let decoded = decode(&encoded);
    assert!(decoded.is_err());
    assert_eq!(decoded, Err(RlpError::Custom("Missing TCP port")));
}

#[test]
fn test_name_record_with_unknown_ports_and_capabilities() {
    let wire_encoded = wire(
        &[
            Port::new(PortTag::TCP, 9000),
            Port::new(PortTag::UDP, 9001),
            Port { tag: 2, port: 9002 },
            Port { tag: 5, port: 9005 },
        ],
        7,
        100,
        ip("10.0.0.1"),
    );

    let decoded = decode(&wire_encoded).unwrap();

    assert_eq!(decoded.ip(), ip("10.0.0.1"));
    assert_eq!(decoded.tcp_port(), 9000);
    assert_eq!(decoded.udp_port(), Some(9001));
    assert_eq!(decoded.capabilities(), 7);
    assert_eq!(decoded.seq(), 100);

    let reencoded = decoded.encode();
    assert_eq!(wire_encoded, reencoded);

    let key = key_from(b"test keypair for signature veri");
    let signature = sign(&wire_encoded, &key);
    let signed_record = MonadNameRecord { name_record: decoded, signature };

    assert_eq!(signed_record.recover_pubkey(recover), Ok(key));
}

#[test]
fn test_name_record_roundtrip() {
    let ip = ip("192.168.50.100");
    let port = 8888u16;
    let seq = 42u64;

    let record = NameRecord::new(ip, port, seq);
    let encoded = record.encode();

    assert_eq!(
        hex::encode(&encoded),
        "d784c0a83264cfc4808222b8c4018222b8c4028222b8802a"
    );

    let decoded = decode(&encoded).unwrap();

    assert_eq!(decoded.ip(), ip);
    assert_eq!(decoded.tcp_port(), port);
    assert_eq!(decoded.udp_port(), Some(port));
    assert_eq!(decoded.authenticated_udp_port(), port);
    assert_eq!(decoded.capabilities(), 0);
    assert_eq!(decoded.seq(), seq);

    let reencoded = decoded.encode();
    assert_eq!(encoded, reencoded);

    let key = key_from(b"test roundtrip");
    let signature = sign(&encoded, &key);
    let signed_record = MonadNameRecord { name_record: decoded.duplicate(), signature };

    assert_eq!(signed_record.recover_pubkey(recover), Ok(key));

    let signed_encoded = signed_record.encode(seal_item(&signature));

    let decoded_signed = decode_signed(&signed_encoded);
    assert_eq!(decoded_signed.name_record.ip(), ip);
    assert_eq!(decoded_signed.name_record.tcp_port(), port);
    assert_eq!(decoded_signed.name_record.udp_port(), Some(port));
    assert_eq!(decoded_signed.name_record.seq(), seq);

    assert_eq!(decoded_signed.recover_pubkey(recover), Ok(key));
}

#[test]
fn test_name_record_v2_roundtrip() {
    let ip = ip("192.168.50.100");
    let tcp_port = 9000u16;
    let udp_port = 9001u16;
    let authenticated_udp_port = 9002u16;
    let capabilities = 0u64;
    let seq = 42u64;

    let v2_record =
        NameRecord::new_with_authentication(ip, tcp_port, udp_port, authenticated_udp_port, seq);
    let v2_encoded = v2_record.encode();

    assert_eq!(
        hex::encode(&v2_encoded),
        "d784c0a83264cfc480822328c401822329c40282232a802a"
    );

    let decoded = decode(&v2_encoded).unwrap();

    assert_eq!(decoded.ip(), ip);
    assert_eq!(decoded.tcp_port(), tcp_port);
    assert_eq!(decoded.udp_port(), Some(udp_port));
    assert_eq!(decoded.authenticated_udp_port(), authenticated_udp_port);
    assert_eq!(decoded.capabilities(), capabilities);
    assert_eq!(decoded.seq(), seq);

    let reencoded = decoded.encode();
    assert_eq!(v2_encoded, reencoded);

    let key = key_from(b"test v2 roundtrip");
    let signature = sign(&v2_encoded, &key);
    let signed_record = MonadNameRecord { name_record: decoded.duplicate(), signature };

    assert_eq!(signed_record.recover_pubkey(recover), Ok(key));

    let signed_encoded = signed_record.encode(seal_item(&signature));

    let decoded_signed = decode_signed(&signed_encoded);
    assert_eq!(decoded_signed.name_record.ip(), ip);
    assert_eq!(decoded_signed.name_record.tcp_port(), tcp_port);
    assert_eq!(decoded_signed.name_record.udp_port(), Some(udp_port));
    assert_eq!(decoded_signed.name_record.capabilities(), capabilities);
    assert_eq!(decoded_signed.name_record.seq(), seq);

    assert_eq!(decoded_signed.recover_pubkey(recover), Ok(key));
}

#[test]
fn test_name_record_with_authentication() {
    let ip = ip("10.0.0.42");
    let tcp_port = 9000u16;
    let udp_port = 9001u16;
    let authenticated_udp_port = 9002u16;
    let seq = 100u64;

    let auth_record =
        NameRecord::new_with_authentication(ip, tcp_port, udp_port, authenticated_udp_port, seq);

    assert_eq!(auth_record.ip(), ip);
    assert_eq!(auth_record.tcp_port(), tcp_port);
    assert_eq!(auth_record.udp_port(), Some(udp_port));
    assert_eq!(auth_record.authenticated_udp_port(), authenticated_udp_port);
    assert_eq!(auth_record.authenticated_udp_socket(), socket("10.0.0.42:9002"));
    assert_eq!(auth_record.capabilities(), 0);
    assert_eq!(auth_record.seq(), seq);

    let encoded = auth_record.encode();
    assert_eq!(
        hex::encode(&encoded),
        "d7840a00002acfc480822328c401822329c40282232a8064"
    );

    let decoded = decode(&encoded).unwrap();
    assert_eq!(decoded.ip(), ip);
    assert_eq!(decoded.tcp_port(), tcp_port);
    assert_eq!(decoded.udp_port(), Some(udp_port));
    assert_eq!(decoded.authenticated_udp_port(), authenticated_udp_port);
    assert_eq!(decoded.seq(), seq);

    let reencoded = decoded.encode();
    assert_eq!(encoded, reencoded);

    let key = key_from(b"test authenticated udp");
    let signed_record = MonadNameRecord::new(decoded, sign, &key);

    assert_eq!(signed_record.authenticated_udp_address(), socket("10.0.0.42:9002"));

    assert_eq!(signed_record.recover_pubkey(recover), Ok(key));
}

#[test]
fn test_name_record_auth_only_roundtrip() {
    let ip = ip("10.0.0.52");
    let tcp_port = 9050u16;
    let authenticated_udp_port = 9051u16;
    let seq = 110u64;

    let auth_only_record =
        NameRecord::new_with_ports(ip, tcp_port, None, authenticated_udp_port, None, seq);

    assert_eq!(auth_only_record.ip(), ip);
    assert_eq!(auth_only_record.tcp_port(), tcp_port);
    assert_eq!(auth_only_record.udp_port(), None);
    assert_eq!(auth_only_record.authenticated_udp_port(), authenticated_udp_port);
    assert_eq!(
        auth_only_record.authenticated_udp_socket(),
        SocketAddrV4::new(ip, authenticated_udp_port)
    );
    assert_eq!(auth_only_record.seq(), seq);

    let encoded = auth_only_record.encode();

    let decoded = decode(&encoded).unwrap();
    assert_eq!(decoded, auth_only_record);

    let key = key_from(b"test auth only udp");
    let signed_record = MonadNameRecord::new(decoded, sign, &key);
    assert_eq!(
        signed_record.all_udp_sockets(),
        vec![SocketAddrV4::new(ip, authenticated_udp_port)]
    );
    assert_eq!(signed_record.recover_pubkey(recover), Ok(key));
}

#[test]
fn test_name_record_with_direct_udp_roundtrip() {
    let ip = ip("10.0.0.43");
    let tcp_port = 9100u16;
    let udp_port = 9101u16;
    let authenticated_udp_port = 9102u16;
    let direct_udp_port = 9103u16;
    let seq = 101u64;

    let record = NameRecord::new_with_ports(
        ip,
        tcp_port,
        Some(udp_port),
        authenticated_udp_port,
        Some(direct_udp_port),
        seq,
    );

    assert_eq!(record.ip(), ip);
    assert_eq!(record.tcp_port(), tcp_port);
    assert_eq!(record.udp_port(), Some(udp_port));
    assert_eq!(record.authenticated_udp_port(), authenticated_udp_port);
    assert_eq!(record.direct_udp_port(), Some(direct_udp_port));
    assert_eq!(record.direct_udp_socket(), Some(socket("10.0.0.43:9103")));
    assert_eq!(record.seq(), seq);

    let encoded = record.encode();

    let decoded = decode(&encoded).unwrap();
    assert_eq!(decoded.ip(), ip);
    assert_eq!(decoded.tcp_port(), tcp_port);
    assert_eq!(decoded.udp_port(), Some(udp_port));
    assert_eq!(decoded.authenticated_udp_port(), authenticated_udp_port);
    assert_eq!(decoded.direct_udp_port(), Some(direct_udp_port));
    assert_eq!(decoded.seq(), seq);

    let reencoded = decoded.encode();
    assert_eq!(encoded, reencoded);
}

fn check_all_udp_sockets(record: NameRecord, expected_sockets: Vec<SocketAddrV4>) {
    let key = key_from(b"test all sockets");
    let signed_record = MonadNameRecord::new(record, sign, &key);
    assert_eq!(signed_record.all_udp_sockets(), expected_sockets);
}

#[test]
fn test_monad_name_record_all_udp_sockets() {
    let host = Ipv4Addr::new(10, 0, 0, 44);
    check_all_udp_sockets(
        NameRecord::new_with_ports(host, 9200, Some(9201), 9202, Some(9203), 102),
        vec![
            SocketAddrV4::new(host, 9201),
            SocketAddrV4::new(host, 9202),
            SocketAddrV4::new(host, 9203),
        ],
    );
    let host = Ipv4Addr::new(10, 0, 0, 45);
    check_all_udp_sockets(
        NameRecord::new_with_ports(host, 9300, Some(9301), 9301, Some(9303), 103),
        vec![SocketAddrV4::new(host, 9301), SocketAddrV4::new(host, 9303)],
    );
    let host = Ipv4Addr::new(10, 0, 0, 46);
    check_all_udp_sockets(
        NameRecord::new_with_ports(host, 9400, Some(9401), 9402, None, 104),
        vec![SocketAddrV4::new(host, 9401), SocketAddrV4::new(host, 9402)],
    );
    let host = Ipv4Addr::new(10, 0, 0, 48);
    check_all_udp_sockets(
        NameRecord::new_with_ports(host, 9500, None, 9502, None, 106),
        vec![SocketAddrV4::new(host, 9502)],
    );
    let host = Ipv4Addr::new(10, 0, 0, 47);
    check_all_udp_sockets(
        NameRecord::new(host, 9501, 105),
        vec![SocketAddrV4::new(host, 9501)],
    );
}

#[test]
fn test_peer_entry_to_monad_name_record_invalid_signature() {
    let ip = ip("192.168.1.200");
    let port = 9000u16;
    let auth_port = 9001u16;
    let seq = 10u64;

    let key = key_from(b"test invalid sig");
    let other_key = key_from(b"other key");
    let addr = SocketAddrV4::new(ip, port);

    let name_record = NameRecord::new_with_authentication(ip, port, port, auth_port, seq);
    let encoded = name_record.encode();
    let wrong_signature = sign(&encoded, &other_key);

    let peer_entry = PeerEntry {
        pubkey: key,
        addr: addr.text(),
        signature: wrong_signature,
        record_seq_num: seq,
        auth_port: Some(auth_port),
        direct_udp_port: None,
    };

    assert!(matches!(
        peer_entry.to_record(verify),
        Err(PeerEntryConversionError::InvalidSignature(_))
    ));
}

#[test]
fn test_peer_entry_monad_name_record_requires_authenticated_udp_port() {
    let ip = ip("10.0.0.1");
    let port = 5000u16;
    let seq = 1u64;

    let key = key_from(b"test missing auth port");
    let name_record = NameRecord::new_with_ports(ip, port, None, port, None, seq);
    let original = MonadNameRecord::new(name_record, sign, &key);

    let peer_entry = PeerEntry {
        pubkey: original.recover_pubkey(recover).unwrap(),
        addr: ip.text(),
        signature: original.signature,
        record_seq_num: seq,
        auth_port: None,
        direct_udp_port: None,
    };
    assert!(matches!(
        peer_entry.to_record(verify),
        Err(PeerEntryConversionError::MissingAuthenticatedUdpPort)
    ));
}

#[test]
fn test_peer_entry_monad_name_record_roundtrip_with_auth() {
    let ip = ip("172.31.0.100");
    let port = 8888u16;
    let auth_port = 8889u16;
    let seq = 99u64;

    let key = key_from(b"test roundtrip auth");
    let name_record = NameRecord::new_with_authentication(ip, port, port, auth_port, seq);
    let original = MonadNameRecord::new(name_record, sign, &key);

    let pubkey = original.recover_pubkey(recover).unwrap();
    let peer_entry = original.with_pubkey(pubkey).into_peer_entry();
    assert_eq!(peer_entry.auth_port, Some(auth_port));

    let converted = peer_entry.to_record(verify).unwrap();

    assert_eq!(converted.name_record, original.name_record);
    assert_eq!(converted.signature, original.signature);
}

#[test]
fn test_peer_entry_monad_name_record_roundtrip_auth_only() {
    let ip = ip("172.31.0.110");
    let tcp_port = 8895u16;
    let auth_port = 8896u16;
    let seq = 102u64;

    let key = key_from(b"test roundtrip auth only");
    let name_record = NameRecord::new_with_ports(ip, tcp_port, None, auth_port, None, seq);
    let original = MonadNameRecord::new(name_record, sign, &key);

    let pubkey = original.recover_pubkey(recover).unwrap();
    let peer_entry = original.with_pubkey(pubkey).into_peer_entry();
    assert_eq!(peer_entry.addr, SocketAddrV4::new(ip, tcp_port).text());
    assert_eq!(peer_entry.auth_port, Some(auth_port));

    let converted = peer_entry.to_record(verify).unwrap();

    assert_eq!(converted.name_record, original.name_record);
    assert_eq!(converted.signature, original.signature);
}

#[test]
fn test_peer_entry_monad_name_record_roundtrip_auth_only_ip_form() {
    let ip = ip("172.31.0.120");
    let auth_port = 8897u16;
    let seq = 103u64;

    let key = key_from(b"test roundtrip auth only ip form");
    let name_record = NameRecord::new_with_ports(ip, auth_port, None, auth_port, None, seq);
    let original = MonadNameRecord::new(name_record, sign, &key);

    let pubkey = original.recover_pubkey(recover).unwrap();
    let peer_entry = original.with_pubkey(pubkey).into_peer_entry();
    assert_eq!(peer_entry.addr, ip.text());
    assert_eq!(peer_entry.auth_port, Some(auth_port));

    let converted = peer_entry.to_record(verify).unwrap();

    assert_eq!(converted.name_record, original.name_record);
    assert_eq!(converted.signature, original.signature);
}

#[test]
fn test_peer_entry_monad_name_record_roundtrip_with_direct_udp() {
    let ip = ip("172.31.0.101");
    let port = 8890u16;
    let auth_port = 8891u16;
    let direct_udp_port = 8892u16;
    let seq = 100u64;

    let key = key_from(b"test roundtrip direct udp");
    let name_record =
        NameRecord::new_with_ports(ip, port, Some(port), auth_port, Some(direct_udp_port), seq);
    let original = MonadNameRecord::new(name_record, sign, &key);

    let pubkey = original.recover_pubkey(recover).unwrap();
    let peer_entry = original.with_pubkey(pubkey).into_peer_entry();
    assert_eq!(peer_entry.auth_port, Some(auth_port));
    assert_eq!(peer_entry.direct_udp_port, Some(direct_udp_port));

    let converted = peer_entry.to_record(verify).unwrap();

    assert_eq!(converted.name_record, original.name_record);
    assert_eq!(converted.signature, original.signature);
    assert_eq!(converted.name_record.authenticated_udp_port(), auth_port);
    assert_eq!(converted.name_record.direct_udp_port(), Some(direct_udp_port));
}

#[test]
fn test_peer_entry_monad_name_record_requires_authenticated_udp_port_for_direct_udp() {
    let ip = ip("172.31.0.102");
    let port = 8893u16;
    let auth_port = 8894u16;
    let direct_udp_port = 8894u16;
    let seq = 101u64;

    let key = key_from(b"test direct udp missing auth");
    let name_record =
        NameRecord::new_with_ports(ip, port, Some(port), auth_port, Some(direct_udp_port), seq);
    let original = MonadNameRecord::new(name_record, sign, &key);

    let peer_entry = PeerEntry {
        pubkey: original.recover_pubkey(recover).unwrap(),
        addr: SocketAddrV4::new(ip, port).text(),
        signature: original.signature,
        record_seq_num: seq,
        auth_port: None,
        direct_udp_port: Some(direct_udp_port),
    };
    assert_eq!(peer_entry.direct_udp_port, Some(direct_udp_port));

    assert!(matches!(
        peer_entry.to_record(verify),
        Err(PeerEntryConversionError::MissingAuthenticatedUdpPort)
    ));
}

#[test]
fn test_bootstrap_peer_config_monad_name_record_roundtrip_auth_only() {
    let ip = ip("172.31.0.111");
    let tcp_port = 8897u16;
    let auth_port = 8898u16;
    let seq = 103u64;

    let key = key_from(b"test bootstrap auth only");
    let name_record = NameRecord::new_with_ports(ip, tcp_port, None, auth_port, None, seq);
    let original = MonadNameRecord::new(name_record, sign, &key);

    let pubkey = original.recover_pubkey(recover).unwrap();
    let peer_config = original.with_pubkey(pubkey).into_bootstrap_config();
    assert_eq!(peer_config.address, SocketAddrV4::new(ip, tcp_port).text());
    assert_eq!(peer_config.auth_port, Some(auth_port));

    let converted = peer_config.to_record(verify).unwrap();

    assert_eq!(converted.name_record, original.name_record);
    assert_eq!(converted.signature, original.signature);
}

#[test]
fn test_bootstrap_peer_config_deserializes_ip_form() {
    let ip = ip("172.31.0.113");
    let auth_port = 8901u16;
    let seq = 105u64;

    let key = key_from(b"test bootstrap ip form");
    let name_record = NameRecord::new_with_ports(ip, auth_port, None, auth_port, None, seq);
    let original = MonadNameRecord::new(name_record, sign, &key);
    let pubkey = original.recover_pubkey(recover).unwrap();

    let peer_config = NodeBootstrapPeerConfig {
        address: String::from("172.31.0.113"),
        record_seq_num: seq,
        secp256k1_pubkey: pubkey,
        name_record_sig: original.signature,
        auth_port: Some(auth_port),
        direct_udp_port: None,
    };

    assert_eq!(peer_config.address, ip.text());

    let converted = peer_config.to_record(verify).unwrap();
    assert_eq!(converted.name_record, original.name_record);
    assert_eq!(converted.signature, original.signature);
}

#[test]
fn record_to_entry_recovers_the_key() {
    let key = key_from(b"entry");
    let record = NameRecord::new(ip("10.1.2.3"), 7000, 9);
    let signed = MonadNameRecord::new(record, sign, &key);
    let entry = signed.to_peer_entry(recover).unwrap();
    assert_eq!(entry.pubkey, key);
    assert_eq!(entry.addr, "10.1.2.3:7000");
    assert_eq!(entry.record_seq_num, 9);
    assert_eq!(entry.direct_udp_port, None);

    let broken = MonadNameRecord {
        name_record: NameRecord::new(ip("10.1.2.3"), 7000, 10),
        signature: signed.signature,
    };
    assert_eq!(broken.to_peer_entry(recover), Err(Mismatch));
}

#[test]
fn entry_with_another_udp_port_does_not_lead_back() {
    let key = key_from(b"other udp");
    let record = NameRecord::new_with_authentication(ip("10.1.2.3"), 7000, 7001, 7002, 9);
    let signed = MonadNameRecord::new(record, sign, &key);
    let entry = signed.with_pubkey(key).into_peer_entry();
    assert!(matches!(
        entry.to_record(verify),
        Err(PeerEntryConversionError::InvalidSignature(Mismatch))
    ));
}

#[test]
fn entry_needs_an_address() {
    let key = key_from(b"address");
    let signature = sign(&Vec::new(), &key);
    let entry = PeerEntry {
        pubkey: key,
        addr: String::from("example.org:80"),
        signature,
        record_seq_num: 1,
        auth_port: Some(1),
        direct_udp_port: None,
    };
    assert!(matches!(
        entry.to_record(verify),
        Err(PeerEntryConversionError::InvalidAddress)
    ));
    let mut config = NodeBootstrapPeerConfig {
        address: String::from("1.2.3"),
        record_seq_num: 1,
        secp256k1_pubkey: key,
        name_record_sig: signature,
        auth_port: Some(1),
        direct_udp_port: None,
    };
    assert_eq!(
        config.to_record(verify).err(),
        Some(PeerConfigConversionError::InvalidAddress)
    );
    config.address = String::from("1.2.3.4");
    assert_eq!(
        config.to_record(verify).err(),
        Some(PeerConfigConversionError::InvalidSignature)
    );
    config.auth_port = None;
    assert_eq!(
        config.to_record(verify).err(),
        Some(PeerConfigConversionError::MissingAuthenticatedUdpPort)
    );
}

#[test]
fn addresses_have_one_text() {
    assert_eq!(Ipv4Addr::parse("0.0.0.0"), Some(Ipv4Addr::new(0, 0, 0, 0)));
    assert_eq!(Ipv4Addr::parse("255.10.1.9"), Some(Ipv4Addr::new(255, 10, 1, 9)));
    for bad in ["", "1.2.3", "1.2.3.4.", "1.2.3.4.5", "256.1.1.1", "01.1.1.1", "1.1.1.1 ", "a.b.c.d"] {
        assert_eq!(Ipv4Addr::parse(bad), None, "{bad}");
    }
    assert_eq!(Ipv4Addr::new(255, 10, 1, 9).text(), "255.10.1.9");
    assert_eq!(Ipv4Addr::new(1, 2, 3, 4).octets(), [1, 2, 3, 4]);
}

#[test]
fn sockets_take_leading_zeros_in_ports() {
    let host = Ipv4Addr::new(1, 2, 3, 4);
    assert_eq!(SocketAddrV4::parse("1.2.3.4:080"), Some(SocketAddrV4::new(host, 80)));
    assert_eq!(SocketAddrV4::parse("1.2.3.4:65535"), Some(SocketAddrV4::new(host, 65535)));
    for bad in ["1.2.3.4", "1.2.3.4:", "1.2.3.4:65536", "1.2.3.4:+1", "1.2.3.4:1 ", ":80"] {
        assert_eq!(SocketAddrV4::parse(bad), None, "{bad}");
    }
    assert_eq!(SocketAddrV4::new(host, 7).text(), "1.2.3.4:7");
}

#[test]
fn records_refuse_what_does_not_belong() {
    let host = ip("1.2.3.4");
    let tcp = Port::new(PortTag::TCP, 1);
    let auth = Port::new(PortTag::AuthenticatedUDP, 2);
    assert_eq!(
        decode(&wire(&[tcp], 0, 1, host)),
        Err(RlpError::Custom("Missing authenticated UDP port"))
    );
    assert!(decode(&wire(&[tcp, auth], 0, 1, host)).is_ok());

    let mut list = vec![0xc0u8 + 9 * 3];
    for tag in 4u8..13 {
        list.extend_from_slice(&[0xc2, tag, 1]);
    }
    let mut fields = vec![0x84, 1, 2, 3, 4];
    fields.extend_from_slice(&list);
    fields.extend_from_slice(&[0x80, 0x80]);
    let mut bytes = vec![0xc0 + fields.len() as u8];
    bytes.extend_from_slice(&fields);
    assert_eq!(decode(&bytes), Err(RlpError::Custom("too many ports")));

    assert_eq!(
        decode(&[0xc4, 0x83, 1, 2, 3]),
        Err(RlpError::Custom("Invalid IPv4 address"))
    );
    let mut long = wire(&[tcp, auth], 0, 1, host);
    long[0] += 1;
    long.push(0x80);
    assert_eq!(decode(&long), Err(RlpError::UnexpectedLength));
    assert_eq!(decode(&[0x80]), Err(RlpError::UnexpectedString));
    assert!(matches!(decode(&[0xc9]), Err(RlpError::Codec(_))));
    assert_eq!(
        decode(&[0xca, 0x84, 1, 2, 3, 4, 0xc4, 0xc3, 1, 2, 3]),
        Err(RlpError::ListLengthMismatch { expected: 3, got: 2 })
    );
}

#[test]
fn bytes_behind_a_record_are_left() {
    let record = NameRecord::new(ip("9.8.7.6"), 1234, 5);
    let mut bytes = record.encode();
    bytes.extend_from_slice(&[1, 2, 3]);
    let (decoded, rest) = NameRecord::decode(&bytes).unwrap();
    assert_eq!(decoded, record);
    assert_eq!(rest, &[1, 2, 3]);
}

#[test]
fn signed_records_must_fill_their_list() {
    let key = key_from(b"fill");
    let signed = MonadNameRecord::new(NameRecord::new(ip("9.8.7.6"), 1234, 5), sign, &key);
    let bytes = signed.encode(seal_item(&signed.signature));
    let parts = name_record::decode_signed(&bytes).unwrap();
    let expected = parts.payload_length;
    let got = parts.record_length + 1;
    let short = parts.finish(signed.signature, 1);
    assert_eq!(short, Err(RlpError::ListLengthMismatch { expected, got }));
    assert!(name_record::decode_signed(&[0xc1, 0x80]).is_err());
    assert!(name_record::decode_signed(&[0x05]).is_err());
}

#[test]
fn capabilities_are_single_bits() {
    let mut record = NameRecord::new(ip("9.8.7.6"), 1234, 5);
    assert!(!record.check_capability(Capability { bit: 3 }));
    record.set_capability(Capability { bit: 3 });
    record.set_capability(Capability { bit: 63 });
    assert!(record.check_capability(Capability { bit: 3 }));
    assert!(record.check_capability(Capability { bit: 63 }));
    assert!(!record.check_capability(Capability { bit: 4 }));
    assert_eq!(record.capabilities(), 8 + (1 << 63));
    assert_eq!(decode(&record.encode()), Ok(record));
}

#[test]
fn port_numbers_of_unknown_use_have_no_tag() {
    assert_eq!(Port::new(PortTag::DirectUDP, 5), Port { tag: 3, port: 5 });
    assert_eq!(Port { tag: 1, port: 5 }.tag_enum(), Some(PortTag::UDP));
    assert_eq!(Port { tag: 4, port: 5 }.tag_enum(), None);
    let list = PortList::new();
    assert_eq!(list.tcp_port(), None);
    assert_eq!(list.encode(), vec![0xc0]);
    assert!(list.as_slice().is_empty());
}

#[test]
fn timers_and_sources_are_plain_data() {
    let source = PeerSource { id: 4u8, addr: SocketAddr::V4(socket("1.2.3.4:5")) };
    assert_eq!(source.clone(), source);
    let v6 = SocketAddrV6 { octets: [1; 16], port: 5, flowinfo: 0, scope_id: 0 };
    let other = PeerSource { id: 4u8, addr: SocketAddr::V6(v6) };
    assert_ne!(other, source);
    let command: PeerDiscoveryTimerCommand<u8, u8> = PeerDiscoveryTimerCommand::Schedule {
        node_id: 1,
        timer_kind: TimerKind::RetryPeerLookup { lookup_id: 2 },
        duration_ns: 3,
        on_timeout: 4,
    };
    assert!(matches!(
        command,
        PeerDiscoveryTimerCommand::Schedule {
            timer_kind: TimerKind::RetryPeerLookup { lookup_id: 2 },
            ..
        }
    ));
}
