//! From a genesis document to the request that initialises the application.
use vstd::prelude::*;

use crate::abci::error::{labelled, CosmosTxPoolError};
use crate::abci::messages::{BlockParams, ConsensusParams, Duration, EvidenceParams, Timestamp};
use crate::json;
use crate::json::{Json, JsonView};
use crate::text;

verus! {

/// The request that initialises an application. Its validator list is always
/// empty; the application state travels as the serialised document.
#[derive(Debug, PartialEq, Eq)]
pub struct InitChainRequest {
    pub time: Timestamp,
    pub chain_id: String,
    pub consensus_params: ConsensusParams,
    pub app_state: Json,
    pub initial_height: i64,
}

/// The instant that `chrono::DateTime::parse_from_rfc3339` reads in a text, as
/// seconds since the epoch and nanoseconds; else the text of its error.
pub uninterp spec fn rfc3339_utc(value: Seq<char>) -> Result<(i64, u32), Seq<char>>;

/// `chrono::DateTime::parse_from_rfc3339`, brought to UTC.
#[verifier::external_body]
fn parse_rfc3339(value: &str) -> (r: Result<(i64, u32), String>)
    ensures
        match r {
            Ok(t) => rfc3339_utc(value@) == Ok::<(i64, u32), Seq<char>>(t),
            Err(e) => rfc3339_utc(value@) == Err::<(i64, u32), Seq<char>>(e@),
        },
{
    match chrono::DateTime::parse_from_rfc3339(value) {
        Ok(parsed) => {
            let utc = parsed.with_timezone(&chrono::Utc);
            Ok((utc.timestamp(), utc.timestamp_subsec_nanos()))
        },
        Err(err) => Err(err.to_string()),
    }
}

/// Whether `r` is the timestamp of an instant, or the pool's error for a text
/// that is not one.
pub open spec fn is_timestamp_of(
    r: Result<Timestamp, CosmosTxPoolError>,
    parsed: Result<(i64, u32), Seq<char>>,
) -> bool {
    match parsed {
        Ok((seconds, nanos)) => r == Ok::<Timestamp, CosmosTxPoolError>(
            Timestamp { seconds, nanos: nanos as i32 },
        ),
        Err(text) => r matches Err(CosmosTxPoolError::Transport(t)) && t@
            == "invalid genesis_time: "@ + text,
    }
}

/// The timestamp of a parsed instant.
pub fn timestamp_from_parsed(parsed: Result<(i64, u32), String>) -> (r: Result<
    Timestamp,
    CosmosTxPoolError,
>)
    ensures
        match parsed {
            Ok(t) => is_timestamp_of(r, Ok(t)),
            Err(e) => is_timestamp_of(r, Err(e@)),
        },
{
    match parsed {
        Ok((seconds, nanos)) => Ok(
            Timestamp {
                seconds,
                nanos: #[verifier::truncate]
                (nanos as i32),
            },
        ),
        Err(e) => Err(
            CosmosTxPoolError::Transport(labelled("invalid genesis_time: ", e.as_str())),
        ),
    }
}

/// Reads an RFC 3339 date and time.
pub fn parse_timestamp_rfc3339(value: &str) -> (r: Result<Timestamp, CosmosTxPoolError>)
    ensures
        is_timestamp_of(r, rfc3339_utc(value@)),
{
    timestamp_from_parsed(parse_rfc3339(value))
}

/// The number in a string member; zero where there is none.
pub open spec fn i64_member(value: Option<JsonView>) -> i64 {
    match json::text_of(value) {
        Some(s) => match text::i64_of_text(s) {
            Some(n) => n,
            None => 0,
        },
        None => 0,
    }
}

/// The unsigned number in a string member; zero where there is none.
pub open spec fn u64_member(value: Option<JsonView>) -> u64 {
    match json::text_of(value) {
        Some(s) => match text::u64_of_text(s) {
            Some(n) => n,
            None => 0,
        },
        None => 0,
    }
}

/// A span of `n` nanoseconds, split towards zero.
pub open spec fn duration_of(n: int) -> Duration {
    if n >= 0 {
        Duration { seconds: (n / 1_000_000_000) as i64, nanos: (n % 1_000_000_000) as i32 }
    } else {
        Duration {
            seconds: (-((-n) / 1_000_000_000)) as i64,
            nanos: (-((-n) % 1_000_000_000)) as i32,
        }
    }
}

/// The span in a string member of nanoseconds.
pub open spec fn duration_member(value: Option<JsonView>) -> Option<Duration> {
    match json::text_of(value) {
        Some(s) => match text::i64_of_text(s) {
            Some(n) => Some(duration_of(n as int)),
            None => None,
        },
        None => None,
    }
}

/// What an optional reference refers to.
pub open spec fn deep_of(value: Option<&Json>) -> Option<JsonView> {
    match value {
        Some(v) => Some(v.deep()),
        None => None,
    }
}

/// The member of an optional document.
fn member<'a>(value: Option<&'a Json>, key: &str) -> (r: Option<&'a Json>)
    ensures
        deep_of(r) == json::member(deep_of(value), key@),
{
    match value {
        Some(v) => v.get(key),
        None => None,
    }
}

fn first<'a>(value: Option<&'a Json>) -> (r: Option<&'a Json>)
    ensures
        deep_of(r) == json::first_of(deep_of(value)),
{
    match value {
        Some(v) => v.first(),
        None => None,
    }
}

fn text_value<'a>(value: Option<&'a Json>) -> (r: Option<&'a str>)
    ensures
        match r {
            Some(s) => json::text_of(deep_of(value)) == Some(s@),
            None => json::text_of(deep_of(value)) is None,
        },
{
    match value {
        Some(v) => v.as_str(),
        None => None,
    }
}

/// Reads an `i64` from a string; anything else counts as zero.
pub fn parse_i64_str(value: Option<&Json>) -> (n: i64)
    ensures
        n == i64_member(deep_of(value)),
{
    match text_value(value) {
        Some(s) => match text::parse_i64(s) {
            Some(n) => n,
            None => 0,
        },
        None => 0,
    }
}

/// Reads a `u64` from a string; anything else counts as zero.
pub fn parse_u64_str(value: Option<&Json>) -> (n: u64)
    ensures
        n == u64_member(deep_of(value)),
{
    match text_value(value) {
        Some(s) => match text::parse_u64(s) {
            Some(n) => n,
            None => 0,
        },
        None => 0,
    }
}

/// Reads a span of nanoseconds from a string.
pub fn parse_duration_nanos(value: Option<&Json>) -> (d: Option<Duration>)
    ensures
        d == duration_member(deep_of(value)),
{
    match text_value(value) {
        Some(s) => match text::parse_i64(s) {
            Some(n) => if n >= 0 {
                Some(
                    Duration {
                        seconds: n / 1_000_000_000,
                        nanos: (n % 1_000_000_000) as i32,
                    },
                )
            } else {
                let magnitude: i128 = -(n as i128);
                Some(
                    Duration {
                        seconds: (-(magnitude / 1_000_000_000)) as i64,
                        nanos: (-(magnitude % 1_000_000_000)) as i32,
                    },
                )
            },
            None => None,
        },
        None => None,
    }
}

/// The strings among the items of an array, in order.
pub open spec fn texts_in(items: Seq<JsonView>) -> Seq<Seq<char>>
    decreases items.len(),
{
    if items.len() == 0 {
        Seq::empty()
    } else {
        match items.last().as_text() {
            Some(s) => texts_in(items.drop_last()).push(s),
            None => texts_in(items.drop_last()),
        }
    }
}

/// The strings in an optional array.
pub open spec fn texts_member(value: Option<JsonView>) -> Seq<Seq<char>> {
    match value {
        Some(JsonView::Array(items)) => texts_in(items),
        _ => Seq::empty(),
    }
}

pub open spec fn string_views(strings: Seq<String>) -> Seq<Seq<char>> {
    Seq::new(strings.len(), |i: int| strings[i]@)
}

fn parse_texts(value: Option<&Json>) -> (out: Vec<String>)
    ensures
        string_views(out@) == texts_member(deep_of(value)),
{
    let mut out: Vec<String> = Vec::new();
    if let Some(doc) = value {
        proof {
            doc.lemma_deep();
        }
        if let Json::Array(items) = doc {
            let ghost deep = json::deep_items(items@);
            let mut i: usize = 0;
            assert(deep.take(0) =~= Seq::empty());
            assert(string_views(out@) =~= Seq::empty());
            while i < items.len()
                invariant
                    i <= items@.len(),
                    deep == json::deep_items(items@),
                    string_views(out@) == texts_in(deep.take(i as int)),
                decreases items@.len() - i,
            {
                let ghost before = out@;
                assert(deep.take(i + 1).drop_last() =~= deep.take(i as int));
                if let Some(s) = items[i].as_str() {
                    out.push(String::from_str(s));
                    assert(string_views(out@) =~= string_views(before).push(s@));
                }
                i = i + 1;
            }
            assert(deep.take(i as int) =~= deep);
            return out;
        }
    }
    assert(string_views(out@) =~= Seq::empty());
    out
}

/// Whether `params` are the consensus parameters of a genesis document.
pub open spec fn params_of(params: ConsensusParams, genesis: JsonView) -> bool {
    let p = json::member(genesis.get("consensus"@), "params"@);
    let block = json::member(p, "block"@);
    let evidence = json::member(p, "evidence"@);
    let synchrony = json::member(p, "synchrony"@);
    let feature = json::member(p, "feature"@);
    &&& params.block == BlockParams {
        max_bytes: i64_member(json::member(block, "max_bytes"@)),
        max_gas: i64_member(json::member(block, "max_gas"@)),
        max_txs: i64_member(json::member(block, "max_txs"@)),
    }
    &&& params.evidence == EvidenceParams {
        max_age_num_blocks: i64_member(json::member(evidence, "max_age_num_blocks"@)),
        max_age_duration: duration_member(json::member(evidence, "max_age_duration"@)),
        max_bytes: i64_member(json::member(evidence, "max_bytes"@)),
    }
    &&& string_views(params.pub_key_types@) == texts_member(
        json::member(json::member(p, "validator"@), "pub_key_types"@),
    )
    &&& params.app_version == u64_member(json::member(json::member(p, "version"@), "app"@))
    &&& params.precision == duration_member(json::member(synchrony, "precision"@))
    &&& params.message_delay == duration_member(json::member(synchrony, "message_delay"@))
    &&& params.vote_extensions_enable_height == i64_member(
        json::member(feature, "vote_extensions_enable_height"@),
    )
    &&& params.pbts_enable_height == i64_member(json::member(feature, "pbts_enable_height"@))
}

/// Reads the consensus parameters under `consensus.params`.
pub fn parse_consensus_params(genesis: &Json) -> (params: ConsensusParams)
    ensures
        params_of(params, genesis.deep()),
{
    let params: Option<&Json> = member(genesis.get("consensus"), "params");
    let block: Option<&Json> = member(params, "block");
    let evidence: Option<&Json> = member(params, "evidence");
    let validator: Option<&Json> = member(params, "validator");
    let version: Option<&Json> = member(params, "version");
    let synchrony: Option<&Json> = member(params, "synchrony");
    let feature: Option<&Json> = member(params, "feature");
    ConsensusParams {
        block: BlockParams {
            max_bytes: parse_i64_str(member(block, "max_bytes")),
            max_gas: parse_i64_str(member(block, "max_gas")),
            max_txs: parse_i64_str(member(block, "max_txs")),
        },
        evidence: EvidenceParams {
            max_age_num_blocks: parse_i64_str(member(evidence, "max_age_num_blocks")),
            max_age_duration: parse_duration_nanos(member(evidence, "max_age_duration")),
            max_bytes: parse_i64_str(member(evidence, "max_bytes")),
        },
        pub_key_types: parse_texts(member(validator, "pub_key_types")),
        app_version: parse_u64_str(member(version, "app")),
        precision: parse_duration_nanos(member(synchrony, "precision")),
        message_delay: parse_duration_nanos(member(synchrony, "message_delay")),
        vote_extensions_enable_height: parse_i64_str(
            member(feature, "vote_extensions_enable_height"),
        ),
        pbts_enable_height: parse_i64_str(member(feature, "pbts_enable_height")),
    }
}

/// The entries of an application state with a consensus module: where there is
/// none, or a null one, the genesis consensus parameters make one.
pub open spec fn with_consensus_module(
    entries: Seq<(Seq<char>, JsonView)>,
    genesis: JsonView,
) -> Seq<(Seq<char>, JsonView)> {
    let present = json::lookup(entries, "consensus"@);
    if present is None || present == Some(JsonView::Null) {
        let params = match json::member(genesis.get("consensus"@), "params"@) {
            Some(v) => v,
            None => JsonView::Null,
        };
        json::put(entries, "consensus"@, JsonView::Object(seq![("params"@, params)]))
    } else {
        entries
    }
}

/// The denomination that the first genesis transaction bonds.
pub open spec fn bonded_denom(entries: Seq<(Seq<char>, JsonView)>) -> Option<Seq<char>> {
    let tx = json::first_of(json::member(json::lookup(entries, "genutil"@), "gen_txs"@));
    let message = json::first_of(json::member(json::member(tx, "body"@), "messages"@));
    json::text_of(json::member(json::member(message, "value"@), "denom"@))
}

/// The entries of an application state with the staking module bonding the
/// denomination of the genesis transaction, where both are there.
pub open spec fn with_bond_denom(
    entries: Seq<(Seq<char>, JsonView)>,
    denom: Option<Seq<char>>,
) -> Seq<(Seq<char>, JsonView)> {
    match (json::lookup(entries, "staking"@), denom) {
        (Some(JsonView::Object(staking)), Some(d)) => match json::lookup(staking, "params"@) {
            Some(JsonView::Object(params)) => json::put(
                entries,
                "staking"@,
                JsonView::Object(
                    json::put(
                        staking,
                        "params"@,
                        JsonView::Object(json::put(params, "bond_denom"@, JsonView::Text(d))),
                    ),
                ),
            ),
            _ => entries,
        },
        _ => entries,
    }
}

/// The application state that a genesis document hands to the application.
pub open spec fn app_state_of(genesis: JsonView) -> JsonView {
    match genesis.get("app_state"@) {
        Some(JsonView::Object(entries)) => {
            let modules = with_consensus_module(entries, genesis);
            JsonView::Object(with_bond_denom(modules, bonded_denom(modules)))
        },
        Some(other) => other,
        None => JsonView::Null,
    }
}

/// The first height of a chain: a number, a number in a string, or one.
pub open spec fn initial_height_of(genesis: JsonView) -> i64 {
    let value = genesis.get("initial_height"@);
    let number = match value {
        Some(v) => v.as_i64(),
        None => None,
    };
    match number {
        Some(n) => n,
        None => match json::text_of(value) {
            Some(s) => match text::i64_of_text(s) {
                Some(n) => n,
                None => 1,
            },
            None => 1,
        },
    }
}

fn injected_consensus(entries: &mut Vec<(String, Json)>, genesis: &Json)
    ensures
        json::deep_entries(final(entries)@) == with_consensus_module(
            json::deep_entries(old(entries)@),
            genesis.deep(),
        ),
{
    let inject: bool = match json::find(entries, "consensus") {
        Some(i) => match &entries[i].1 {
            Json::Null => true,
            _ => false,
        },
        None => true,
    };
    if inject {
        let params: Json = match member(genesis.get("consensus"), "params") {
            Some(v) => v.duplicate(),
            None => Json::Null,
        };
        let mut module: Vec<(String, Json)> = Vec::new();
        let ghost deep = params.deep();
        module.push((String::from_str("params"), params));
        let value = Json::Object(module);
        proof {
            value.lemma_deep();
            assert(json::deep_entries(module@) =~= seq![("params"@, deep)]);
        }
        json::set_entry(entries, "consensus", value);
    }
}

fn find_bonded_denom(entries: &Vec<(String, Json)>) -> (r: Option<String>)
    ensures
        match r {
            Some(s) => bonded_denom(json::deep_entries(entries@)) == Some(s@),
            None => bonded_denom(json::deep_entries(entries@)) is None,
        },
{
    let genutil: Option<&Json> = match json::find(entries, "genutil") {
        Some(i) => Some(&entries[i].1),
        None => None,
    };
    let tx: Option<&Json> = first(member(genutil, "gen_txs"));
    let message: Option<&Json> = first(member(member(tx, "body"), "messages"));
    match text_value(member(member(message, "value"), "denom")) {
        Some(s) => Some(String::from_str(s)),
        None => None,
    }
}

/// Sets the bonded denomination in an object of staking parameters' parent.
fn set_staking_params(staking: &mut Vec<(String, Json)>, denom: String) -> (changed: bool)
    ensures
        match json::lookup(json::deep_entries(old(staking)@), "params"@) {
            Some(JsonView::Object(params)) => changed && json::deep_entries(final(staking)@)
                == json::put(
                json::deep_entries(old(staking)@),
                "params"@,
                JsonView::Object(json::put(params, "bond_denom"@, JsonView::Text(denom@))),
            ),
            _ => !changed && json::deep_entries(final(staking)@) == json::deep_entries(
                old(staking)@,
            ),
        },
{
    let ghost before = staking@;
    match json::find(staking, "params") {
        Some(i) => {
            let (key, value) = staking.remove(i);
            proof {
                value.lemma_deep();
            }
            match value {
                Json::Object(mut params) => {
                    json::set_entry(&mut params, "bond_denom", Json::Text(denom));
                    let updated = Json::Object(params);
                    proof {
                        updated.lemma_deep();
                    }
                    staking.insert(i, (key, updated));
                    assert(json::deep_entries(staking@) =~= json::deep_entries(before).update(
                        i as int,
                        ("params"@, updated.deep()),
                    ));
                    true
                },
                other => {
                    staking.insert(i, (key, other));
                    assert(json::deep_entries(staking@) =~= json::deep_entries(before));
                    false
                },
            }
        },
        None => false,
    }
}

fn bonded(entries: &mut Vec<(String, Json)>, denom: Option<String>)
    ensures
        json::deep_entries(final(entries)@) == with_bond_denom(
            json::deep_entries(old(entries)@),
            match denom {
                Some(d) => Some(d@),
                None => None,
            },
        ),
{
    let ghost before = entries@;
    let d: String = match denom {
        Some(d) => d,
        None => {
            return ;
        },
    };
    match json::find(entries, "staking") {
        Some(i) => {
            let (key, value) = entries.remove(i);
            proof {
                value.lemma_deep();
            }
            match value {
                Json::Object(mut staking) => {
                    let changed: bool = set_staking_params(&mut staking, d);
                    let updated = Json::Object(staking);
                    proof {
                        updated.lemma_deep();
                    }
                    entries.insert(i, (key, updated));
                    assert(json::deep_entries(entries@) =~= json::deep_entries(before).update(
                        i as int,
                        ("staking"@, updated.deep()),
                    ));
                    proof {
                        if !changed {
                            assert(json::deep_entries(entries@) =~= json::deep_entries(before));
                        }
                    }
                },
                other => {
                    entries.insert(i, (key, other));
                    assert(json::deep_entries(entries@) =~= json::deep_entries(before));
                },
            }
        },
        None => {},
    }
}

fn build_app_state(genesis: &Json) -> (state: Json)
    ensures
        state.deep() == app_state_of(genesis.deep()),
{
    let base: Json = match genesis.get("app_state") {
        Some(v) => v.duplicate(),
        None => Json::Null,
    };
    proof {
        base.lemma_deep();
    }
    match base {
        Json::Object(mut entries) => {
            injected_consensus(&mut entries, genesis);
            let denom: Option<String> = find_bonded_denom(&entries);
            bonded(&mut entries, denom);
            let state = Json::Object(entries);
            proof {
                state.lemma_deep();
            }
            state
        },
        other => other,
    }
}

/// Whether `r` is the request of a genesis document, given what its genesis
/// time was read as.
pub open spec fn is_init_chain_request(
    r: Result<InitChainRequest, CosmosTxPoolError>,
    genesis: JsonView,
    parsed: Result<(i64, u32), Seq<char>>,
) -> bool {
    match json::text_of(genesis.get("genesis_time"@)) {
        None => r matches Err(CosmosTxPoolError::Transport(t)) && t@ == "missing genesis_time"@,
        Some(_) => match parsed {
            Err(text) => r matches Err(CosmosTxPoolError::Transport(t)) && t@
                == "invalid genesis_time: "@ + text,
            Ok((seconds, nanos)) => r matches Ok(request) && {
                &&& request.time == Timestamp { seconds, nanos: nanos as i32 }
                &&& request.chain_id@ == match json::text_of(genesis.get("chain_id"@)) {
                    Some(s) => s,
                    None => Seq::empty(),
                }
                &&& params_of(request.consensus_params, genesis)
                &&& request.app_state.deep() == app_state_of(genesis)
                &&& request.initial_height == initial_height_of(genesis)
            },
        },
    }
}

/// Builds the request once the genesis time has been read; `parsed` is not
/// looked at where the document has no genesis time.
pub fn init_chain_request_at(genesis: &Json, parsed: Result<(i64, u32), String>) -> (r: Result<
    InitChainRequest,
    CosmosTxPoolError,
>)
    ensures
        match parsed {
            Ok(t) => is_init_chain_request(r, genesis.deep(), Ok(t)),
            Err(e) => is_init_chain_request(r, genesis.deep(), Err(e@)),
        },
{
    if text_value(genesis.get("genesis_time")).is_none() {
        return Err(CosmosTxPoolError::Transport(String::from_str("missing genesis_time")));
    }
    let time: Timestamp = match timestamp_from_parsed(parsed) {
        Ok(time) => time,
        Err(e) => {
            return Err(e);
        },
    };
    let chain_id: String = match text_value(genesis.get("chain_id")) {
        Some(s) => String::from_str(s),
        None => String::new(),
    };
    let height: Option<&Json> = genesis.get("initial_height");
    let number: Option<i64> = match height {
        Some(v) => v.as_i64(),
        None => None,
    };
    let initial_height: i64 = match number {
        Some(n) => n,
        None => match text_value(height) {
            Some(s) => match text::parse_i64(s) {
                Some(n) => n,
                None => 1,
            },
            None => 1,
        },
    };
    Ok(
        InitChainRequest {
            time,
            chain_id,
            consensus_params: parse_consensus_params(genesis),
            app_state: build_app_state(genesis),
            initial_height,
        },
    )
}

/// Builds the request that initialises the application from a genesis document.
pub fn build_init_chain_request(genesis: &Json) -> (r: Result<InitChainRequest, CosmosTxPoolError>)
    ensures
        is_init_chain_request(
            r,
            genesis.deep(),
            rfc3339_utc(
                match json::text_of(genesis.deep().get("genesis_time"@)) {
                    Some(s) => s,
                    None => Seq::empty(),
                },
            ),
        ),
{
    match text_value(genesis.get("genesis_time")) {
        Some(s) => init_chain_request_at(genesis, parse_rfc3339(s)),
        None => init_chain_request_at(genesis, Err(String::new())),
    }
}

/// The consensus module is there after the state was prepared, whenever the
/// state is an object at all.
pub proof fn prepared_state_has_consensus_module(genesis: JsonView)
    ensures
        genesis.get("app_state"@) matches Some(JsonView::Object(_)) ==> {
            let consensus = app_state_of(genesis).get("consensus"@);
            consensus is Some && consensus != Some(JsonView::Null)
        },
{
    if let Some(JsonView::Object(entries)) = genesis.get("app_state"@) {
        let modules = with_consensus_module(entries, genesis);
        let params = match json::member(genesis.get("consensus"@), "params"@) {
            Some(v) => v,
            None => JsonView::Null,
        };
        let module = JsonView::Object(seq![("params"@, params)]);
        json::put_then_lookup(entries, "consensus"@, module, "consensus"@);
        if let Some(JsonView::Object(staking)) = json::lookup(modules, "staking"@) {
            if let Some(JsonView::Object(p)) = json::lookup(staking, "params"@) {
                if let Some(d) = bonded_denom(modules) {
                    let value = JsonView::Object(
                        json::put(
                            staking,
                            "params"@,
                            JsonView::Object(json::put(p, "bond_denom"@, JsonView::Text(d))),
                        ),
                    );
                    json::put_then_lookup(modules, "staking"@, value, "consensus"@);
                }
            }
        }
    }
}

/// Whether a value stands in a genesis document as a consensus parameter.
pub open spec fn is_parameter(
    genesis: JsonView,
    section: Seq<char>,
    name: Seq<char>,
    value: JsonView,
) -> bool {
    json::stands_under(genesis, seq!["consensus"@, "params"@, section, name], value)
}

proof fn lemma_parameter(
    genesis: JsonView,
    section: Seq<char>,
    name: Seq<char>,
    value: JsonView,
)
    ensures
        is_parameter(genesis, section, name, value) <==> json::member(
            json::member(json::member(genesis.get("consensus"@), "params"@), section),
            name,
        ) == Some(value),
{
    json::lemma_four_keys(genesis, "consensus"@, "params"@, section, name, value);
}

/// Each number among the consensus parameters is read from its own place, as
/// the text that stands there.
pub proof fn numbers_come_from_their_places(params: ConsensusParams, genesis: JsonView, n: i64)
    requires
        params_of(params, genesis),
    ensures
        ({
            let number = JsonView::Text(text::number_text(n as int));
            &&& is_parameter(genesis, "block"@, "max_bytes"@, number) ==> params.block.max_bytes
                == n
            &&& is_parameter(genesis, "block"@, "max_gas"@, number) ==> params.block.max_gas == n
            &&& is_parameter(genesis, "block"@, "max_txs"@, number) ==> params.block.max_txs == n
            &&& is_parameter(genesis, "evidence"@, "max_age_num_blocks"@, number)
                ==> params.evidence.max_age_num_blocks == n
            &&& is_parameter(genesis, "evidence"@, "max_bytes"@, number)
                ==> params.evidence.max_bytes == n
            &&& is_parameter(genesis, "feature"@, "vote_extensions_enable_height"@, number)
                ==> params.vote_extensions_enable_height == n
            &&& is_parameter(genesis, "feature"@, "pbts_enable_height"@, number)
                ==> params.pbts_enable_height == n
        }),
{
    let number = JsonView::Text(text::number_text(n as int));
    text::i64_text_roundtrip(n);
    lemma_parameter(genesis, "block"@, "max_bytes"@, number);
    lemma_parameter(genesis, "block"@, "max_gas"@, number);
    lemma_parameter(genesis, "block"@, "max_txs"@, number);
    lemma_parameter(genesis, "evidence"@, "max_age_num_blocks"@, number);
    lemma_parameter(genesis, "evidence"@, "max_bytes"@, number);
    lemma_parameter(genesis, "feature"@, "vote_extensions_enable_height"@, number);
    lemma_parameter(genesis, "feature"@, "pbts_enable_height"@, number);
}

/// The version of the application is read from its own place.
pub proof fn app_version_comes_from_its_place(
    params: ConsensusParams,
    genesis: JsonView,
    version: u64,
)
    requires
        params_of(params, genesis),
        is_parameter(
            genesis,
            "version"@,
            "app"@,
            JsonView::Text(text::decimal_text(version as nat)),
        ),
    ensures
        params.app_version == version,
{
    lemma_parameter(
        genesis,
        "version"@,
        "app"@,
        JsonView::Text(text::decimal_text(version as nat)),
    );
    text::u64_text_roundtrip(version);
}

/// Whether a span is `n` nanoseconds, its two parts on the same side of zero.
pub open spec fn spans(d: Duration, n: int) -> bool {
    &&& d.seconds * 1_000_000_000 + d.nanos == n
    &&& -1_000_000_000 < d.nanos < 1_000_000_000
    &&& n >= 0 ==> d.seconds >= 0 && d.nanos >= 0
    &&& n <= 0 ==> d.seconds <= 0 && d.nanos <= 0
}

/// Each span among the consensus parameters is read from its own place, and is
/// the number of nanoseconds that stands there.
pub proof fn spans_come_from_their_places(params: ConsensusParams, genesis: JsonView, n: i64)
    requires
        params_of(params, genesis),
    ensures
        ({
            let number = JsonView::Text(text::number_text(n as int));
            &&& is_parameter(genesis, "evidence"@, "max_age_duration"@, number) ==> (
            params.evidence.max_age_duration matches Some(d) && spans(d, n as int))
            &&& is_parameter(genesis, "synchrony"@, "precision"@, number) ==> (
            params.precision matches Some(d) && spans(d, n as int))
            &&& is_parameter(genesis, "synchrony"@, "message_delay"@, number) ==> (
            params.message_delay matches Some(d) && spans(d, n as int))
        }),
{
    let number = JsonView::Text(text::number_text(n as int));
    text::i64_text_roundtrip(n);
    lemma_parameter(genesis, "evidence"@, "max_age_duration"@, number);
    lemma_parameter(genesis, "synchrony"@, "precision"@, number);
    lemma_parameter(genesis, "synchrony"@, "message_delay"@, number);
    assert(spans(duration_of(n as int), n as int));
}

/// The types of public keys are read from their own place: where all items of
/// the list are texts, they are those texts, in order.
pub proof fn key_types_come_from_their_place(
    params: ConsensusParams,
    genesis: JsonView,
    names: Seq<Seq<char>>,
)
    requires
        params_of(params, genesis),
        is_parameter(
            genesis,
            "validator"@,
            "pub_key_types"@,
            JsonView::Array(Seq::new(names.len(), |i: int| JsonView::Text(names[i]))),
        ),
    ensures
        params.pub_key_types@.len() == names.len(),
        forall|i: int| 0 <= i < names.len() ==> (#[trigger] params.pub_key_types@[i])@ == names[i],
{
    let items = Seq::new(names.len(), |i: int| JsonView::Text(names[i]));
    lemma_parameter(genesis, "validator"@, "pub_key_types"@, JsonView::Array(items));
    lemma_all_texts(names);
    assert(string_views(params.pub_key_types@) == names);
    assert forall|i: int| 0 <= i < names.len() implies (#[trigger] params.pub_key_types@[i])@
        == names[i] by {
        assert(string_views(params.pub_key_types@)[i] == names[i]);
    }
}

proof fn lemma_all_texts(names: Seq<Seq<char>>)
    ensures
        texts_in(Seq::new(names.len(), |i: int| JsonView::Text(names[i]))) == names,
    decreases names.len(),
{
    let items = Seq::new(names.len(), |i: int| JsonView::Text(names[i]));
    if names.len() > 0 {
        let rest = names.drop_last();
        lemma_all_texts(rest);
        assert(items.drop_last() =~= Seq::new(rest.len(), |i: int| JsonView::Text(rest[i])));
        assert(rest.push(names.last()) =~= names);
    } else {
        assert(texts_in(items) =~= names);
    }
}

/// An item of a list that is no text is passed over, wherever it stands.
pub proof fn other_items_are_passed_over(
    before: Seq<JsonView>,
    item: JsonView,
    after: Seq<JsonView>,
)
    requires
        item !is Text,
    ensures
        texts_in(before + seq![item] + after) == texts_in(before + after),
    decreases after.len(),
{
    if after.len() == 0 {
        assert((before + seq![item] + after).drop_last() =~= before);
        assert(before + after =~= before);
    } else {
        other_items_are_passed_over(before, item, after.drop_last());
        assert((before + seq![item] + after).drop_last() =~= before + seq![item]
            + after.drop_last());
        assert((before + after).drop_last() =~= before + after.drop_last());
        assert((before + seq![item] + after).last() == (before + after).last());
    }
}

/// A number that is not there, or that is no text, counts as zero; a span that
/// is not there, or that is no text, is left out.
pub proof fn absent_parameters_are_zero(params: ConsensusParams, genesis: JsonView)
    requires
        params_of(params, genesis),
    ensures
        (forall|v: JsonView| #[trigger] is_parameter(genesis, "block"@, "max_bytes"@, v)
            ==> v !is Text) ==> params.block.max_bytes == 0,
        (forall|v: JsonView| #[trigger] is_parameter(genesis, "block"@, "max_gas"@, v)
            ==> v !is Text) ==> params.block.max_gas == 0,
        (forall|v: JsonView| #[trigger] is_parameter(genesis, "block"@, "max_txs"@, v)
            ==> v !is Text) ==> params.block.max_txs == 0,
        (forall|v: JsonView| #[trigger] is_parameter(genesis, "evidence"@, "max_age_num_blocks"@, v)
            ==> v !is Text) ==> params.evidence.max_age_num_blocks == 0,
        (forall|v: JsonView| #[trigger] is_parameter(genesis, "evidence"@, "max_bytes"@, v)
            ==> v !is Text) ==> params.evidence.max_bytes == 0,
        (forall|v: JsonView| #[trigger] is_parameter(genesis, "evidence"@, "max_age_duration"@, v)
            ==> v !is Text) ==> params.evidence.max_age_duration is None,
        (forall|v: JsonView| #[trigger] is_parameter(genesis, "validator"@, "pub_key_types"@, v)
            ==> v !is Array) ==> params.pub_key_types@.len() == 0,
        (forall|v: JsonView| #[trigger] is_parameter(genesis, "version"@, "app"@, v)
            ==> v !is Text) ==> params.app_version == 0,
        (forall|v: JsonView| #[trigger] is_parameter(genesis, "synchrony"@, "precision"@, v)
            ==> v !is Text) ==> params.precision is None,
        (forall|v: JsonView| #[trigger] is_parameter(genesis, "synchrony"@, "message_delay"@, v)
            ==> v !is Text) ==> params.message_delay is None,
        (forall|v: JsonView| #[trigger]
            is_parameter(genesis, "feature"@, "vote_extensions_enable_height"@, v) ==> v !is Text)
            ==> params.vote_extensions_enable_height == 0,
        (forall|v: JsonView| #[trigger] is_parameter(genesis, "feature"@, "pbts_enable_height"@, v)
            ==> v !is Text) ==> params.pbts_enable_height == 0,
{
    assert forall|section: Seq<char>, name: Seq<char>, v: JsonView| #[trigger]
        is_parameter(genesis, section, name, v) <==> json::member(
            json::member(json::member(genesis.get("consensus"@), "params"@), section),
            name,
        ) == Some(v) by {
        lemma_parameter(genesis, section, name, v);
    }
    let p = json::member(genesis.get("consensus"@), "params"@);
    if let Some(v) = json::member(json::member(p, "block"@), "max_bytes"@) {
        assert(is_parameter(genesis, "block"@, "max_bytes"@, v));
    }
    if let Some(v) = json::member(json::member(p, "block"@), "max_gas"@) {
        assert(is_parameter(genesis, "block"@, "max_gas"@, v));
    }
    if let Some(v) = json::member(json::member(p, "block"@), "max_txs"@) {
        assert(is_parameter(genesis, "block"@, "max_txs"@, v));
    }
    if let Some(v) = json::member(json::member(p, "evidence"@), "max_age_num_blocks"@) {
        assert(is_parameter(genesis, "evidence"@, "max_age_num_blocks"@, v));
    }
    if let Some(v) = json::member(json::member(p, "evidence"@), "max_bytes"@) {
        assert(is_parameter(genesis, "evidence"@, "max_bytes"@, v));
    }
    if let Some(v) = json::member(json::member(p, "evidence"@), "max_age_duration"@) {
        assert(is_parameter(genesis, "evidence"@, "max_age_duration"@, v));
    }
    if let Some(v) = json::member(json::member(p, "validator"@), "pub_key_types"@) {
        assert(is_parameter(genesis, "validator"@, "pub_key_types"@, v));
    }
    if let Some(v) = json::member(json::member(p, "version"@), "app"@) {
        assert(is_parameter(genesis, "version"@, "app"@, v));
    }
    if let Some(v) = json::member(json::member(p, "synchrony"@), "precision"@) {
        assert(is_parameter(genesis, "synchrony"@, "precision"@, v));
    }
    if let Some(v) = json::member(json::member(p, "synchrony"@), "message_delay"@) {
        assert(is_parameter(genesis, "synchrony"@, "message_delay"@, v));
    }
    if let Some(v) = json::member(json::member(p, "feature"@), "vote_extensions_enable_height"@) {
        assert(is_parameter(genesis, "feature"@, "vote_extensions_enable_height"@, v));
    }
    if let Some(v) = json::member(json::member(p, "feature"@), "pbts_enable_height"@) {
        assert(is_parameter(genesis, "feature"@, "pbts_enable_height"@, v));
    }
    assert(string_views(params.pub_key_types@).len() == params.pub_key_types@.len());
}

/// The chain starts at the height that the document gives as a whole number or
/// as its text, and at one where it gives none; it has the identifier of the
/// document, and the time that was read.
pub proof fn requests_start_the_chain_of_the_document(
    r: Result<InitChainRequest, CosmosTxPoolError>,
    genesis: JsonView,
    seconds: i64,
    nanos: u32,
    time: Seq<char>,
    n: i64,
    chain_id: Seq<char>,
)
    requires
        json::holds(genesis, "genesis_time"@, JsonView::Text(time)),
        is_init_chain_request(r, genesis, Ok((seconds, nanos))),
        nanos < 0x8000_0000,
    ensures
        r matches Ok(request) && {
            &&& request.time.seconds == seconds && request.time.nanos == nanos
            &&& json::holds(genesis, "chain_id"@, JsonView::Text(chain_id)) ==> request.chain_id@
                == chain_id
            &&& (forall|v: JsonView| #[trigger]
                json::holds(genesis, "chain_id"@, v) ==> v !is Text) ==> request.chain_id@.len()
                == 0
            &&& json::holds(
                genesis,
                "initial_height"@,
                JsonView::Text(text::number_text(n as int)),
            ) ==> request.initial_height == n
            &&& n >= 0 && json::holds(
                genesis,
                "initial_height"@,
                JsonView::Number(json::JsonNumber::PosInt(n as u64)),
            ) ==> request.initial_height == n
            &&& json::holds(
                genesis,
                "initial_height"@,
                JsonView::Number(json::JsonNumber::NegInt(n)),
            ) ==> request.initial_height == n
            &&& (forall|v: JsonView| #[trigger]
                json::holds(genesis, "initial_height"@, v) ==> v !is Text && v !is Number)
                ==> request.initial_height == 1
        },
{
    json::held_members_are_found(genesis, "genesis_time"@, JsonView::Text(time));
    json::held_members_are_found(genesis, "chain_id"@, JsonView::Text(chain_id));
    let written = JsonView::Text(text::number_text(n as int));
    json::held_members_are_found(genesis, "initial_height"@, written);
    let positive = JsonView::Number(json::JsonNumber::PosInt(n as u64));
    json::held_members_are_found(genesis, "initial_height"@, positive);
    let negative = JsonView::Number(json::JsonNumber::NegInt(n));
    json::held_members_are_found(genesis, "initial_height"@, negative);
    text::i64_text_roundtrip(n);
    if let Some(v) = genesis.get("initial_height"@) {
        json::held_members_are_found(genesis, "initial_height"@, v);
    }
    if let Some(v) = genesis.get("chain_id"@) {
        json::held_members_are_found(genesis, "chain_id"@, v);
    }
}

/// A document without a genesis time, or with one that cannot be read, makes no
/// request, and the error says which of the two it was.
pub proof fn documents_need_a_time(
    r: Result<InitChainRequest, CosmosTxPoolError>,
    genesis: JsonView,
    parsed: Result<(i64, u32), Seq<char>>,
)
    requires
        is_init_chain_request(r, genesis, parsed),
    ensures
        (forall|v: JsonView| #[trigger] json::holds(genesis, "genesis_time"@, v) ==> v !is Text)
            ==> (r matches Err(CosmosTxPoolError::Transport(t)) && t@ == "missing genesis_time"@),
        forall|time: Seq<char>| #[trigger]
            json::holds(genesis, "genesis_time"@, JsonView::Text(time)) ==> match parsed {
                Ok(_) => r is Ok,
                Err(e) => r matches Err(CosmosTxPoolError::Transport(t)) && t@
                    == "invalid genesis_time: "@ + e,
            },
{
    if let Some(v) = genesis.get("genesis_time"@) {
        json::held_members_are_found(genesis, "genesis_time"@, v);
    }
    assert forall|time: Seq<char>| #[trigger]
        json::holds(genesis, "genesis_time"@, JsonView::Text(time)) implies match parsed {
        Ok(_) => r is Ok,
        Err(e) => r matches Err(CosmosTxPoolError::Transport(t)) && t@ == "invalid genesis_time: "@
            + e,
    } by {
        json::held_members_are_found(genesis, "genesis_time"@, JsonView::Text(time));
    }
}

/// The prepared state keeps every module of the document's state but the two
/// that it may fill in, and a consensus module that is there; a missing or null
/// one becomes one with the document's consensus parameters.
pub proof fn modules_of_the_state_stay(
    genesis: JsonView,
    entries: Seq<(Seq<char>, JsonView)>,
    name: Seq<char>,
    params: JsonView,
)
    requires
        json::holds(genesis, "app_state"@, JsonView::Object(entries)),
    ensures
        name != "consensus"@ && name != "staking"@ ==> app_state_of(genesis).get(name)
            == JsonView::Object(entries).get(name),
        forall|module: JsonView| #[trigger]
            json::holds(JsonView::Object(entries), "consensus"@, module) && module != JsonView::Null
                ==> app_state_of(genesis).get("consensus"@) == Some(module),
        (forall|module: JsonView| #[trigger]
            json::holds(JsonView::Object(entries), "consensus"@, module) ==> module
                == JsonView::Null) && json::stands_under(
            genesis,
            seq!["consensus"@, "params"@],
            params,
        ) ==> app_state_of(genesis).get("consensus"@) == Some(
            JsonView::Object(seq![("params"@, params)]),
        ),
{
    let state = JsonView::Object(entries);
    json::held_members_are_found(genesis, "app_state"@, state);
    let modules = with_consensus_module(entries, genesis);
    let denom = bonded_denom(modules);
    reveal_strlit("consensus");
    reveal_strlit("staking");
    assert("consensus"@.len() != "staking"@.len());
    let found = match json::member(genesis.get("consensus"@), "params"@) {
        Some(v) => v,
        None => JsonView::Null,
    };
    let filled = JsonView::Object(seq![("params"@, found)]);
    json::put_then_lookup(entries, "consensus"@, filled, name);
    json::put_then_lookup(entries, "consensus"@, filled, "consensus"@);
    if let (Some(JsonView::Object(staking)), Some(d)) = (json::lookup(modules, "staking"@), denom) {
        if let Some(JsonView::Object(p)) = json::lookup(staking, "params"@) {
            let value = JsonView::Object(
                json::put(
                    staking,
                    "params"@,
                    JsonView::Object(json::put(p, "bond_denom"@, JsonView::Text(d))),
                ),
            );
            json::put_then_lookup(modules, "staking"@, value, name);
            json::put_then_lookup(modules, "staking"@, value, "consensus"@);
        }
    }
    assert forall|module: JsonView| #[trigger]
        json::holds(state, "consensus"@, module) <==> state.get("consensus"@) == Some(module) by {
        json::held_members_are_found(state, "consensus"@, module);
    }
    if let Some(module) = state.get("consensus"@) {
        assert(json::holds(state, "consensus"@, module));
    }
    let path = seq!["consensus"@, "params"@];
    assert(path.skip(1) =~= seq!["params"@]);
    assert(path.skip(1).skip(1) =~= Seq::<Seq<char>>::empty());
    json::paths_lead_to_values(genesis, path, params);
    if let Some(c) = genesis.get("consensus"@) {
        json::paths_lead_to_values(c, path.skip(1), params);
    }
}

/// A state that is no object stays as it is, and a missing one is null.
pub proof fn other_states_stay(genesis: JsonView, state: JsonView)
    ensures
        json::holds(genesis, "app_state"@, state) && state !is Object ==> app_state_of(genesis)
            == state,
        (forall|v: JsonView| !#[trigger] json::holds(genesis, "app_state"@, v)) ==> app_state_of(
            genesis,
        ) == JsonView::Null,
{
    json::held_members_are_found(genesis, "app_state"@, state);
    if let Some(v) = genesis.get("app_state"@) {
        json::held_members_are_found(genesis, "app_state"@, v);
    }
}

/// Whether a module of genesis transactions bonds a denomination: the value of
/// the first message of its first transaction names it.
pub open spec fn bonds(genutil: JsonView, denom: Seq<char>) -> bool {
    exists|txs: Seq<JsonView>, body: JsonView, messages: Seq<JsonView>, value: JsonView|
        {
            &&& #[trigger] json::holds(genutil, "gen_txs"@, JsonView::Array(txs))
            &&& txs.len() > 0
            &&& #[trigger] json::holds(txs[0], "body"@, body)
            &&& #[trigger] json::holds(body, "messages"@, JsonView::Array(messages))
            &&& messages.len() > 0
            &&& #[trigger] json::holds(messages[0], "value"@, value)
            &&& json::holds(value, "denom"@, JsonView::Text(denom))
        }
}

/// Where the first genesis transaction bonds a denomination, the prepared state
/// stakes it: the staking parameters name it, and keep everything else that
/// they and their module held.
pub proof fn staking_bonds_the_denomination(
    genesis: JsonView,
    entries: Seq<(Seq<char>, JsonView)>,
    genutil: JsonView,
    denom: Seq<char>,
    staking: Seq<(Seq<char>, JsonView)>,
    params: Seq<(Seq<char>, JsonView)>,
    name: Seq<char>,
)
    requires
        json::holds(genesis, "app_state"@, JsonView::Object(entries)),
        json::holds(JsonView::Object(entries), "genutil"@, genutil),
        bonds(genutil, denom),
        json::holds(JsonView::Object(entries), "staking"@, JsonView::Object(staking)),
        json::holds(JsonView::Object(staking), "params"@, JsonView::Object(params)),
    ensures
        ({
            let after = app_state_of(genesis).get("staking"@);
            let after_params = json::member(after, "params"@);
            &&& json::member(after_params, "bond_denom"@) == Some(JsonView::Text(denom))
            &&& name != "bond_denom"@ ==> json::member(after_params, name) == JsonView::Object(
                params,
            ).get(name)
            &&& name != "params"@ ==> json::member(after, name) == JsonView::Object(staking).get(
                name,
            )
        }),
{
    let state = JsonView::Object(entries);
    json::held_members_are_found(genesis, "app_state"@, state);
    json::held_members_are_found(state, "genutil"@, genutil);
    json::held_members_are_found(state, "staking"@, JsonView::Object(staking));
    json::held_members_are_found(JsonView::Object(staking), "params"@, JsonView::Object(params));
    let (txs, body, messages, value): (Seq<JsonView>, JsonView, Seq<JsonView>, JsonView) = choose|
        txs: Seq<JsonView>,
        body: JsonView,
        messages: Seq<JsonView>,
        value: JsonView,
    |
        {
            &&& #[trigger] json::holds(genutil, "gen_txs"@, JsonView::Array(txs))
            &&& txs.len() > 0
            &&& #[trigger] json::holds(txs[0], "body"@, body)
            &&& #[trigger] json::holds(body, "messages"@, JsonView::Array(messages))
            &&& messages.len() > 0
            &&& #[trigger] json::holds(messages[0], "value"@, value)
            &&& json::holds(value, "denom"@, JsonView::Text(denom))
        };
    json::held_members_are_found(genutil, "gen_txs"@, JsonView::Array(txs));
    json::held_members_are_found(txs[0], "body"@, body);
    json::held_members_are_found(body, "messages"@, JsonView::Array(messages));
    json::held_members_are_found(messages[0], "value"@, value);
    json::held_members_are_found(value, "denom"@, JsonView::Text(denom));
    let modules = with_consensus_module(entries, genesis);
    reveal_strlit("consensus");
    reveal_strlit("staking");
    reveal_strlit("genutil");
    assert("consensus"@.len() != "staking"@.len() && "consensus"@.len() != "genutil"@.len());
    let found = match json::member(genesis.get("consensus"@), "params"@) {
        Some(v) => v,
        None => JsonView::Null,
    };
    let filled = JsonView::Object(seq![("params"@, found)]);
    json::put_then_lookup(entries, "consensus"@, filled, "staking"@);
    json::put_then_lookup(entries, "consensus"@, filled, "genutil"@);
    assert(bonded_denom(modules) == Some(denom));
    let new_params = json::put(params, "bond_denom"@, JsonView::Text(denom));
    let new_staking = json::put(staking, "params"@, JsonView::Object(new_params));
    json::put_then_lookup(modules, "staking"@, JsonView::Object(new_staking), "staking"@);
    json::put_then_lookup(staking, "params"@, JsonView::Object(new_params), "params"@);
    json::put_then_lookup(staking, "params"@, JsonView::Object(new_params), name);
    json::put_then_lookup(params, "bond_denom"@, JsonView::Text(denom), "bond_denom"@);
    json::put_then_lookup(params, "bond_denom"@, JsonView::Text(denom), name);
}

/// Where no genesis transaction bonds a denomination, the staking module stays
/// as it was.
pub proof fn staking_stays_without_a_denomination(
    genesis: JsonView,
    entries: Seq<(Seq<char>, JsonView)>,
)
    requires
        json::holds(genesis, "app_state"@, JsonView::Object(entries)),
        forall|genutil: JsonView, denom: Seq<char>| #[trigger]
            json::holds(JsonView::Object(entries), "genutil"@, genutil) ==> !#[trigger] bonds(
                genutil,
                denom,
            ),
    ensures
        app_state_of(genesis).get("staking"@) == JsonView::Object(entries).get("staking"@),
{
    let state = JsonView::Object(entries);
    json::held_members_are_found(genesis, "app_state"@, state);
    let modules = with_consensus_module(entries, genesis);
    reveal_strlit("consensus");
    reveal_strlit("staking");
    reveal_strlit("genutil");
    assert("consensus"@.len() != "staking"@.len() && "consensus"@.len() != "genutil"@.len());
    let found = match json::member(genesis.get("consensus"@), "params"@) {
        Some(v) => v,
        None => JsonView::Null,
    };
    let filled = JsonView::Object(seq![("params"@, found)]);
    json::put_then_lookup(entries, "consensus"@, filled, "staking"@);
    json::put_then_lookup(entries, "consensus"@, filled, "genutil"@);
    if let Some(denom) = bonded_denom(modules) {
        let genutil = state.get("genutil"@).unwrap();
        json::held_members_are_found(state, "genutil"@, genutil);
        let txs = genutil.get("gen_txs"@).unwrap()->Array_0;
        json::held_members_are_found(genutil, "gen_txs"@, JsonView::Array(txs));
        let body = txs[0].get("body"@).unwrap();
        json::held_members_are_found(txs[0], "body"@, body);
        let messages = body.get("messages"@).unwrap()->Array_0;
        json::held_members_are_found(body, "messages"@, JsonView::Array(messages));
        let value = messages[0].get("value"@).unwrap();
        json::held_members_are_found(messages[0], "value"@, value);
        json::held_members_are_found(value, "denom"@, JsonView::Text(denom));
        assert(bonds(genutil, denom));
    }
}

/// Whatever text stands for a number among the consensus parameters, the number
/// that it reads as is taken, and zero where it reads as none.
pub proof fn texts_are_read_as_numbers(params: ConsensusParams, genesis: JsonView, s: Seq<char>)
    requires
        params_of(params, genesis),
    ensures
        ({
            let text = JsonView::Text(s);
            let n = match text::i64_of_text(s) {
                Some(n) => n,
                None => 0,
            };
            &&& is_parameter(genesis, "block"@, "max_bytes"@, text) ==> params.block.max_bytes == n
            &&& is_parameter(genesis, "block"@, "max_gas"@, text) ==> params.block.max_gas == n
            &&& is_parameter(genesis, "block"@, "max_txs"@, text) ==> params.block.max_txs == n
            &&& is_parameter(genesis, "evidence"@, "max_age_num_blocks"@, text)
                ==> params.evidence.max_age_num_blocks == n
            &&& is_parameter(genesis, "evidence"@, "max_bytes"@, text)
                ==> params.evidence.max_bytes == n
            &&& is_parameter(genesis, "feature"@, "vote_extensions_enable_height"@, text)
                ==> params.vote_extensions_enable_height == n
            &&& is_parameter(genesis, "feature"@, "pbts_enable_height"@, text)
                ==> params.pbts_enable_height == n
            &&& is_parameter(genesis, "version"@, "app"@, text) ==> params.app_version == (
            match text::u64_of_text(s) {
                Some(v) => v,
                None => 0,
            })
        }),
{
    let text = JsonView::Text(s);
    lemma_parameter(genesis, "block"@, "max_bytes"@, text);
    lemma_parameter(genesis, "block"@, "max_gas"@, text);
    lemma_parameter(genesis, "block"@, "max_txs"@, text);
    lemma_parameter(genesis, "evidence"@, "max_age_num_blocks"@, text);
    lemma_parameter(genesis, "evidence"@, "max_bytes"@, text);
    lemma_parameter(genesis, "feature"@, "vote_extensions_enable_height"@, text);
    lemma_parameter(genesis, "feature"@, "pbts_enable_height"@, text);
    lemma_parameter(genesis, "version"@, "app"@, text);
}

/// Whatever text stands for a span among the consensus parameters, it is a span
/// of as many nanoseconds as it reads as, and none where it reads as none.
pub proof fn texts_are_read_as_spans(params: ConsensusParams, genesis: JsonView, s: Seq<char>)
    requires
        params_of(params, genesis),
    ensures
        ({
            let text = JsonView::Text(s);
            &&& is_parameter(genesis, "evidence"@, "max_age_duration"@, text) ==> reads_as_span(
                params.evidence.max_age_duration,
                s,
            )
            &&& is_parameter(genesis, "synchrony"@, "precision"@, text) ==> reads_as_span(
                params.precision,
                s,
            )
            &&& is_parameter(genesis, "synchrony"@, "message_delay"@, text) ==> reads_as_span(
                params.message_delay,
                s,
            )
        }),
{
    let text = JsonView::Text(s);
    lemma_parameter(genesis, "evidence"@, "max_age_duration"@, text);
    lemma_parameter(genesis, "synchrony"@, "precision"@, text);
    lemma_parameter(genesis, "synchrony"@, "message_delay"@, text);
    if let Some(n) = text::i64_of_text(s) {
        assert(spans(duration_of(n as int), n as int));
    }
}

/// Whether a span is what a text reads as.
pub open spec fn reads_as_span(span: Option<Duration>, s: Seq<char>) -> bool {
    match text::i64_of_text(s) {
        Some(n) => span matches Some(d) && spans(d, n as int),
        None => span is None,
    }
}

/// A member is read by its text: as the number or the span that the text reads
/// as; what is no text, or no number, counts as zero or as no span.
pub proof fn members_are_read_by_their_text(value: Option<JsonView>, s: Seq<char>)
    ensures
        ({
            let text = Some(JsonView::Text(s));
            &&& i64_member(text) == match text::i64_of_text(s) {
                Some(n) => n,
                None => 0,
            }
            &&& u64_member(text) == match text::u64_of_text(s) {
                Some(n) => n,
                None => 0,
            }
            &&& reads_as_span(duration_member(text), s)
            &&& !(value matches Some(JsonView::Text(_))) ==> i64_member(value) == 0 && u64_member(
                value,
            ) == 0 && duration_member(value) is None
        }),
{
    if let Some(n) = text::i64_of_text(s) {
        assert(spans(duration_of(n as int), n as int));
    }
}

/// An instant that was read is the timestamp, and what was not is told.
pub proof fn instants_are_timestamps(
    r: Result<Timestamp, CosmosTxPoolError>,
    parsed: Result<(i64, u32), Seq<char>>,
)
    requires
        is_timestamp_of(r, parsed),
    ensures
        match parsed {
            Ok((seconds, nanos)) => nanos < 0x8000_0000 ==> (r matches Ok(t) && t.seconds == seconds
                && t.nanos == nanos),
            Err(e) => r matches Err(CosmosTxPoolError::Transport(t)) && t@
                == "invalid genesis_time: "@ + e,
        },
{
}

/// The height that a chain starts at, from whatever stands for it: a number
/// that fits, a text that reads as one, or one.
pub proof fn chains_start_at_their_height(genesis: JsonView, value: JsonView)
    requires
        json::holds(genesis, "initial_height"@, value),
    ensures
        initial_height_of(genesis) == match value {
            JsonView::Number(json::JsonNumber::PosInt(n)) => if n < 0x8000_0000_0000_0000 {
                n as int
            } else {
                1
            },
            JsonView::Number(json::JsonNumber::NegInt(n)) => n as int,
            JsonView::Text(s) => match text::i64_of_text(s) {
                Some(n) => n as int,
                None => 1,
            },
            _ => 1,
        },
{
    json::held_members_are_found(genesis, "initial_height"@, value);
}

/// A staking module without an object of parameters stays as it was, and a
/// missing one stays missing. A document without consensus parameters makes a
/// consensus module with null ones.
pub proof fn incomplete_modules_stay(
    genesis: JsonView,
    entries: Seq<(Seq<char>, JsonView)>,
    staking: JsonView,
)
    requires
        json::holds(genesis, "app_state"@, JsonView::Object(entries)),
    ensures
        json::holds(JsonView::Object(entries), "staking"@, staking) && (forall|params: JsonView|
            #[trigger] json::holds(staking, "params"@, params) ==> params !is Object)
            ==> app_state_of(genesis).get("staking"@) == Some(staking),
        (forall|v: JsonView| !#[trigger] json::holds(JsonView::Object(entries), "staking"@, v))
            ==> app_state_of(genesis).get("staking"@) is None,
        (forall|v: JsonView| !#[trigger] json::holds(JsonView::Object(entries), "consensus"@, v))
            && (forall|consensus: JsonView, v: JsonView|
            #![trigger json::holds(genesis, "consensus"@, consensus), json::holds(consensus, "params"@, v)]
            json::holds(genesis, "consensus"@, consensus) ==> !json::holds(
                consensus,
                "params"@,
                v,
            )) ==> app_state_of(genesis).get("consensus"@) == Some(
            JsonView::Object(seq![("params"@, JsonView::Null)]),
        ),
{
    let state = JsonView::Object(entries);
    json::held_members_are_found(genesis, "app_state"@, state);
    json::held_members_are_found(state, "staking"@, staking);
    let modules = with_consensus_module(entries, genesis);
    let denom = bonded_denom(modules);
    reveal_strlit("consensus");
    reveal_strlit("staking");
    assert("consensus"@.len() != "staking"@.len());
    let found = match json::member(genesis.get("consensus"@), "params"@) {
        Some(v) => v,
        None => JsonView::Null,
    };
    let filled = JsonView::Object(seq![("params"@, found)]);
    json::put_then_lookup(entries, "consensus"@, filled, "staking"@);
    json::put_then_lookup(entries, "consensus"@, filled, "consensus"@);
    if let Some(v) = state.get("staking"@) {
        json::held_members_are_found(state, "staking"@, v);
    }
    if let Some(v) = state.get("consensus"@) {
        json::held_members_are_found(state, "consensus"@, v);
    }
    if let Some(v) = staking.get("params"@) {
        json::held_members_are_found(staking, "params"@, v);
    }
    if let Some(c) = genesis.get("consensus"@) {
        json::held_members_are_found(genesis, "consensus"@, c);
        if let Some(v) = c.get("params"@) {
            json::held_members_are_found(c, "params"@, v);
        }
    }
    if let (Some(JsonView::Object(s)), Some(d)) = (json::lookup(modules, "staking"@), denom) {
        if let Some(JsonView::Object(p)) = json::lookup(s, "params"@) {
            let value = JsonView::Object(
                json::put(
                    s,
                    "params"@,
                    JsonView::Object(json::put(p, "bond_denom"@, JsonView::Text(d))),
                ),
            );
            json::put_then_lookup(modules, "staking"@, value, "consensus"@);
        }
    }
}

/// What an optional document refers to is what the document holds.
pub proof fn references_hold_their_document(doc: &Json, strings: Seq<String>, i: int)
    ensures
        deep_of(Some(doc)) == Some(doc.deep()),
        deep_of(None) is None,
        string_views(strings).len() == strings.len(),
        0 <= i < strings.len() ==> string_views(strings)[i] == strings[i]@,
{
}

/// The request of a document carries the document's consensus parameters, each
/// from its own place, and the prepared state.
pub proof fn requests_carry_the_document(
    request: InitChainRequest,
    genesis: JsonView,
    parsed: Result<(i64, u32), Seq<char>>,
    n: i64,
)
    requires
        is_init_chain_request(Ok(request), genesis, parsed),
    ensures
        ({
            let number = JsonView::Text(text::number_text(n as int));
            let params = request.consensus_params;
            &&& is_parameter(genesis, "block"@, "max_bytes"@, number) ==> params.block.max_bytes
                == n
            &&& is_parameter(genesis, "block"@, "max_gas"@, number) ==> params.block.max_gas == n
            &&& is_parameter(genesis, "block"@, "max_txs"@, number) ==> params.block.max_txs == n
            &&& is_parameter(genesis, "evidence"@, "max_age_num_blocks"@, number)
                ==> params.evidence.max_age_num_blocks == n
            &&& is_parameter(genesis, "evidence"@, "max_bytes"@, number)
                ==> params.evidence.max_bytes == n
            &&& is_parameter(genesis, "evidence"@, "max_age_duration"@, number) ==> (
            params.evidence.max_age_duration matches Some(d) && spans(d, n as int))
            &&& is_parameter(genesis, "synchrony"@, "precision"@, number) ==> (
            params.precision matches Some(d) && spans(d, n as int))
            &&& is_parameter(genesis, "synchrony"@, "message_delay"@, number) ==> (
            params.message_delay matches Some(d) && spans(d, n as int))
            &&& is_parameter(genesis, "feature"@, "vote_extensions_enable_height"@, number)
                ==> params.vote_extensions_enable_height == n
            &&& is_parameter(genesis, "feature"@, "pbts_enable_height"@, number)
                ==> params.pbts_enable_height == n
            &&& n >= 0 && is_parameter(genesis, "version"@, "app"@, number) ==> params.app_version
                == n
        }),
        params_of(request.consensus_params, genesis),
        request.app_state.deep() == app_state_of(genesis),
        request.initial_height == initial_height_of(genesis),
{
    numbers_come_from_their_places(request.consensus_params, genesis, n);
    spans_come_from_their_places(request.consensus_params, genesis, n);
    let number = JsonView::Text(text::number_text(n as int));
    if n >= 0 && is_parameter(genesis, "version"@, "app"@, number) {
        app_version_comes_from_its_place(request.consensus_params, genesis, n as u64);
    }
}

} // verus!
