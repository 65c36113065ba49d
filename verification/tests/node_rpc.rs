use base64::Engine;
use monad_cosmos::abci::messages::CheckTxResponse;
use monad_cosmos::json::{Json, JsonNumber};
use monad_cosmos::node_rpc::broadcast_tx;
use monad_cosmos::node_rpc::resources::NodeRpcResources;
use monad_cosmos::node_rpc::server;
use monad_cosmos::node_rpc::server::DispatchStep;
use monad_cosmos::node_rpc::types::{
    BroadcastTxQuery, CometErrorResponse, CometRequest, CometResponse, ResultBroadcastTx,
};
use monad_cosmos::txpool::comet_mempool_rpc;
use monad_cosmos::txpool::comet_mempool_rpc::CometRpcState;

const TX: &[u8] = &[0x0a, 0x01, 0xff, 0x12];

fn text(s: &str) -> Json {
    Json::Text(String::from(s))
}

fn base64_tx() -> String {
    base64::engine::general_purpose::STANDARD.encode(TX)
}

fn resources() -> NodeRpcResources {
    NodeRpcResources::new(String::from("chain-1"), Some(String::from("/tmp/pool.sock")))
}

fn error(id: i64, code: i32, message: &str) -> CometErrorResponse {
    CometErrorResponse::new(id, code, String::from(message))
}

#[test]
fn base64_and_hex_lead_to_the_same_transaction() {
    assert_eq!(broadcast_tx::decode_tx(&base64_tx(), 1), Ok(TX.to_vec()));
    assert_eq!(broadcast_tx::decode_tx(&format!(" {}\n", base64_tx()), 1), Ok(TX.to_vec()));
    assert_eq!(broadcast_tx::decode_tx("0x0a01ff12", 1), Ok(TX.to_vec()));
    assert_eq!(broadcast_tx::decode_tx("0X0A01FF12", 1), Ok(TX.to_vec()));
    assert_eq!(broadcast_tx::decode_tx("\t 0X0a01Ff12\n", 1), Ok(TX.to_vec()));
    assert_eq!(broadcast_tx::decode_tx(" CgH/Eg==\u{3000}", 1), Ok(TX.to_vec()));
    for length in 2usize..8 {
        let mut tx = vec![0x0au8; length];
        tx[length - 1] = 0xfe;
        let encoded = base64::engine::general_purpose::STANDARD.encode(&tx);
        assert_eq!(broadcast_tx::decode_tx(&encoded, 1), Ok(tx));
    }
}

#[test]
fn texts_without_a_transaction_are_refused() {
    assert_eq!(broadcast_tx::decode_tx("", 4), Err(error(4, -32602, "tx must not be empty")));
    assert_eq!(broadcast_tx::decode_tx("0x", 4), Err(error(4, -32602, "tx must not be empty")));
    assert_eq!(
        broadcast_tx::decode_tx("0x0a", 4),
        Err(error(4, -32602, "invalid tx: tx too short to be a valid protobuf message"))
    );
    assert_eq!(
        broadcast_tx::decode_tx("0x0b00", 4),
        Err(error(
            4,
            -32602,
            "invalid tx: first protobuf field is not length-delimited (not a TxRaw)"
        ))
    );
    assert_eq!(
        broadcast_tx::decode_tx("0x0a1", 4),
        Err(error(4, -32602, "hex decode error: Odd number of digits"))
    );
    assert_eq!(
        broadcast_tx::decode_tx("0xzz", 4),
        Err(error(4, -32602, "hex decode error: Invalid character 'z' at position 0"))
    );
    assert_eq!(
        broadcast_tx::decode_tx("Cg", 4).unwrap_err().error.message,
        "base64 decode error: Invalid padding"
    );
    for bad in ["Cg==Cg==", "C===", "Cgh=", "Cg=", "C g=", "Cg-_"] {
        let response = broadcast_tx::decode_tx(bad, 4).unwrap_err();
        assert!(response.error.message.starts_with("base64 decode error: "), "{bad}");
        assert_eq!(response.error.code, -32602);
    }
}

#[test]
fn broadcasts_need_a_pool() {
    let lone = NodeRpcResources::new(String::from("chain-1"), None);
    assert_eq!(
        broadcast_tx::broadcast_tx_async(&lone, &base64_tx(), 7),
        Err(error(7, -32603, "cosmos IPC path not configured; broadcast unavailable"))
    );
    assert_eq!(
        broadcast_tx::broadcast_tx_sync(&lone, "", 7),
        Err(error(7, -32602, "tx must not be empty"))
    );
    let forward = broadcast_tx::broadcast_tx_sync(&resources(), &base64_tx(), 7).unwrap();
    assert_eq!(forward.ipc_path, "/tmp/pool.sock");
    assert_eq!(forward.tx, TX);
    assert_eq!(forward.id, 7);
    assert_eq!(forward.hash, broadcast_tx::tx_hash(TX));
}

#[test]
fn answers_carry_the_hash() {
    let forward = broadcast_tx::broadcast_tx_async(&resources(), "0x0a01", 7).unwrap();
    let hash = hex::encode_upper(forward.hash);
    assert_eq!(hash.len(), 64);
    let response = forward.clone().sent(Ok(())).unwrap();
    assert_eq!(
        response,
        CometResponse {
            jsonrpc: "2.0",
            id: 7,
            result: ResultBroadcastTx {
                code: 0,
                data: String::new(),
                log: String::new(),
                codespace: String::new(),
                hash: hash.clone(),
            },
        }
    );
    assert_eq!(
        forward.clone().sent(Err(String::from("no socket"))),
        Err(error(7, -32603, "failed to forward tx to mempool: no socket"))
    );
    let check = CheckTxResponse {
        code: 5,
        data: vec![0xab, 0x01],
        log: String::from("bad nonce"),
        info: String::new(),
        gas_wanted: 0,
        gas_used: 0,
        events: vec![],
        codespace: String::from("sdk"),
        lane_id: String::new(),
    };
    let response = forward.clone().checked(Ok(check)).unwrap();
    assert_eq!(response.id, 7);
    assert_eq!(response.result.code, 5);
    assert_eq!(response.result.data, "ab01");
    assert_eq!(response.result.log, "bad nonce");
    assert_eq!(response.result.codespace, "sdk");
    assert_eq!(response.result.hash, hash);
    assert_eq!(
        forward.checked(Err(String::from("closed"))),
        Err(error(7, -32603, "failed to forward tx to mempool: closed"))
    );
}

#[test]
fn hash_is_sha256_in_upper_case() {
    let result = ResultBroadcastTx::accepted(broadcast_tx::tx_hash(b"abc"));
    assert_eq!(result.hash, "BA7816BF8F01CFEA414140DE5DAE2223B00361A396177A9CB410FF61F20015AD");
}

#[test]
fn parameters_come_in_three_shapes() {
    let object = Json::Object(vec![(String::from("tx"), text("abc"))]);
    assert_eq!(server::extract_tx_param(&object, 1), Ok(String::from("abc")));
    let array = Json::Array(vec![text("abc"), text("def")]);
    assert_eq!(server::extract_tx_param(&array, 1), Ok(String::from("abc")));
    assert_eq!(server::extract_tx_param(&text("abc"), 1), Ok(String::from("abc")));
    let missing = error(1, -32602, "missing required parameter 'tx'");
    for bad in [
        Json::Null,
        Json::Bool(true),
        Json::Array(vec![]),
        Json::Array(vec![Json::Null]),
        Json::Object(vec![]),
        Json::Object(vec![(String::from("tx"), Json::Number(JsonNumber::PosInt(1)))]),
    ] {
        assert_eq!(server::extract_tx_param(&bad, 1), Err(missing.clone()));
    }
}

fn request(id: Json, method: &str, params: Json) -> CometRequest {
    CometRequest {
        jsonrpc: String::from("2.0"),
        id,
        method: String::from(method),
        params,
    }
}

#[test]
fn requests_reach_their_method() {
    let params = || Json::Array(vec![text("0x0a01")]);
    let number = || Json::Number(JsonNumber::PosInt(3));
    assert!(matches!(
        server::post_handler(&resources(), &request(number(), "broadcast_tx_async", params())),
        DispatchStep::Send(forward) if forward.id == 3 && forward.tx == vec![0x0a, 1]
    ));
    assert!(matches!(
        server::post_handler(&resources(), &request(number(), "broadcast_tx_sync", params())),
        DispatchStep::Check(_)
    ));
    assert!(matches!(
        server::post_handler(&resources(), &request(number(), "status", params())),
        DispatchStep::Reply(r) if r == error(3, -32601, "method not found: status")
    ));
    assert!(matches!(
        server::post_broadcast_tx_async(&resources(), &request(number(), "status", params())),
        DispatchStep::Send(_)
    ));
    assert!(matches!(
        server::post_broadcast_tx_sync(&resources(), &request(number(), "status", params())),
        DispatchStep::Check(_)
    ));
    assert!(matches!(
        server::post_broadcast_tx_sync(&resources(), &request(number(), "status", Json::Null)),
        DispatchStep::Reply(r) if r.error.code == -32602
    ));
    let query = BroadcastTxQuery { tx: String::from("0x0a01") };
    assert!(matches!(
        server::get_broadcast_tx_async(&resources(), &query),
        DispatchStep::Send(forward) if forward.id == -1
    ));
    assert!(matches!(
        server::get_broadcast_tx_sync(&resources(), &query),
        DispatchStep::Check(forward) if forward.id == -1
    ));
    let empty = BroadcastTxQuery { tx: String::new() };
    assert!(matches!(
        server::get_broadcast_tx_sync(&resources(), &empty),
        DispatchStep::Reply(r) if r == error(-1, -32602, "tx must not be empty")
    ));
}

#[test]
fn identifiers_become_numbers() {
    let id = |id: Json| request(id, "m", Json::Null).id_i64();
    assert_eq!(id(Json::Number(JsonNumber::PosInt(12))), 12);
    assert_eq!(id(Json::Number(JsonNumber::NegInt(-12))), -12);
    assert_eq!(id(Json::Number(JsonNumber::PosInt(u64::MAX))), -1);
    assert_eq!(id(Json::Number(JsonNumber::FloatBits(0))), -1);
    assert_eq!(id(text("77")), 77);
    assert_eq!(id(text("seven")), -1);
    assert_eq!(id(Json::Null), -1);

    let small = |id: Option<Json>| {
        comet_mempool_rpc::CometRequest {
            jsonrpc: None,
            id,
            method: String::from("m"),
            params: Json::Null,
        }
        .id_i64()
    };
    assert_eq!(small(Some(Json::Number(JsonNumber::PosInt(12)))), 12);
    assert_eq!(small(Some(text("77"))), -1);
    assert_eq!(small(None), -1);
}

#[test]
fn the_smaller_front_end_never_waits() {
    let state = CometRpcState { mempool_ipc_path: String::from("/tmp/pool.sock") };
    let request = |method: &str| comet_mempool_rpc::CometRequest {
        jsonrpc: Some(String::from("2.0")),
        id: Some(Json::Number(JsonNumber::PosInt(2))),
        method: String::from(method),
        params: text("0x0a01"),
    };
    for method in ["broadcast_tx_async", "broadcast_tx_sync"] {
        assert!(matches!(
            comet_mempool_rpc::post_handler(&state, &request(method)),
            DispatchStep::Send(forward) if forward.id == 2 && forward.ipc_path == "/tmp/pool.sock"
        ));
    }
    assert!(matches!(
        comet_mempool_rpc::post_handler(&state, &request("other")),
        DispatchStep::Reply(r) if r == error(2, -32601, "method not found: other")
    ));
    assert!(matches!(
        comet_mempool_rpc::post_broadcast_tx_async(&state, &request("other")),
        DispatchStep::Send(_)
    ));
    assert!(matches!(
        comet_mempool_rpc::post_broadcast_tx_sync(&state, &request("other")),
        DispatchStep::Send(_)
    ));
    let query = BroadcastTxQuery { tx: String::from("0x0a01") };
    assert!(matches!(
        comet_mempool_rpc::get_broadcast_tx_async(&state, &query),
        DispatchStep::Send(_)
    ));
    assert!(matches!(
        comet_mempool_rpc::get_broadcast_tx_sync(&state, &query),
        DispatchStep::Send(_)
    ));
}

#[test]
fn envelopes_name_the_protocol() {
    let response = CometResponse::ok(5u8);
    assert_eq!(response.jsonrpc, "2.0");
    assert_eq!(response.id, -1);
    let internal = CometErrorResponse::internal(9, String::from("boom"));
    assert_eq!(internal, error(9, -32603, "boom"));
    assert_eq!(internal.error.data, None);
}
