use monad_cosmos::feed;
use monad_cosmos::feed::{FeedPlan, ServePlan};
use monad_cosmos::id_map::IdMap;
use monad_cosmos::json::{Json, JsonNumber};
use monad_cosmos::raptorcast::{DeterministicProtocolRolloutStage, CURRENT_STAGE};
use monad_cosmos::text;

#[test]
fn numbers_have_texts() {
    assert_eq!(text::format_u64(0), "0");
    assert_eq!(text::format_u64(u64::MAX), "18446744073709551615");
    assert_eq!(text::parse_u64("+12"), Some(12));
    assert_eq!(text::parse_u64("18446744073709551616"), None);
    assert_eq!(text::parse_u64(""), None);
    assert_eq!(text::parse_u64("-0"), None);
    assert_eq!(text::parse_i64("-9223372036854775808"), Some(i64::MIN));
    assert_eq!(text::parse_i64("9223372036854775808"), None);
    assert_eq!(text::parse_i64("-"), None);
    for n in [0u64, 7, 10, u64::MAX] {
        assert_eq!(text::parse_u64(&text::format_u64(n)), Some(n));
    }
}

#[test]
fn texts_are_trimmed_and_stripped() {
    assert_eq!(text::trim("\u{3000} a b \t\n"), "a b");
    assert_eq!(text::trim("   "), "");
    assert_eq!(text::trim_start_matches("unix://unix://x", "unix://"), "x");
    assert_eq!(text::strip_prefix("0x12", "0x"), Some("12"));
    assert_eq!(text::strip_prefix("12", "0x"), None);
    assert!(text::starts_with("abc", "ab") && !text::starts_with("a", "ab"));
    assert!(text::same_text("abc", "abc") && !text::same_text("abc", "abd"));
    assert_eq!(text::text_of(&text::chars_of("h\u{e9}")), "h\u{e9}");
}

#[test]
fn documents_are_looked_up_by_key() {
    let document = Json::Object(vec![
        (String::from("a"), Json::Number(JsonNumber::NegInt(-4))),
        (String::from("b"), Json::Array(vec![Json::Bool(true)])),
        (String::from("a"), Json::Null),
    ]);
    assert_eq!(document.get("a").unwrap().as_i64(), Some(-4));
    assert_eq!(document.get("b").unwrap().first(), Some(&Json::Bool(true)));
    assert_eq!(document.get("c"), None);
    assert_eq!(Json::Null.get("a"), None);
    assert_eq!(document.duplicate(), document);
    assert_eq!(Json::Text(String::from("x")).as_str(), Some("x"));
    assert_eq!(Json::Array(vec![]).first(), None);
}

#[test]
fn maps_tell_handles_apart() {
    let mut map: IdMap<u8> = IdMap::new();
    let mut a = [0u8; 32];
    let mut b = [0u8; 32];
    a[31] = 1;
    b[31] = 2;
    map.insert(a, 1);
    map.insert(b, 2);
    assert_eq!((map.get(&a), map.get(&b)), (Some(&1), Some(&2)));
    map.insert(a, 3);
    assert_eq!(map.get(&a), Some(&3));
    map.remove(&a);
    map.remove(&[9; 32]);
    assert_eq!((map.get(&a), map.get(&b)), (None, Some(&2)));
}

#[test]
fn rollout_stages_have_names() {
    assert_eq!(DeterministicProtocolRolloutStage::default(), CURRENT_STAGE);
    assert_eq!(CURRENT_STAGE, DeterministicProtocolRolloutStage::AlwaysV0);
    assert_eq!(DeterministicProtocolRolloutStage::AlwaysV0.name(), "always_v0");
    assert_eq!(
        DeterministicProtocolRolloutStage::AcceptBothPublishV0.name(),
        "accept_both_publish_v0"
    );
    assert_eq!(
        DeterministicProtocolRolloutStage::AcceptBothPublishV1.name(),
        "accept_both_publish_v1"
    );
    assert_eq!(DeterministicProtocolRolloutStage::AlwaysV1.name(), "always_v1");
}

#[test]
fn feeds_find_their_socket() {
    assert_eq!(feed::plan_feed(0, true, true), FeedPlan::Usage);
    assert_eq!(feed::plan_feed(1, false, true), FeedPlan::SocketFromEnvironment);
    assert_eq!(feed::plan_feed(1, false, false), FeedPlan::EnvironmentRequired);
    assert_eq!(feed::plan_feed(2, false, true), FeedPlan::SocketFromArgument);
    assert_eq!(feed::plan_feed(2, true, true), FeedPlan::SocketFromEnvironment);
    assert_eq!(feed::plan_feed(2, true, false), FeedPlan::SocketEmpty);
    assert_eq!(feed::plan_feed(3, false, true), FeedPlan::Usage);
    assert_eq!(feed::plan_serve(true, false, true), ServePlan::SocketFromArgument);
    assert_eq!(feed::plan_serve(true, true, true), ServePlan::SocketRequired);
    assert_eq!(feed::plan_serve(false, true, true), ServePlan::SocketFromEnvironment);
    assert_eq!(feed::plan_serve(false, true, false), ServePlan::SocketRequired);
    assert!(feed::wants_serve(Some("serve")));
    assert!(!feed::wants_serve(Some("server")) && !feed::wants_serve(None));
    assert_eq!(
        feed::sent_line(12, "/tmp/s"),
        "ok: sent 1 tx (12 bytes) to /tmp/s (exit 0)"
    );
    assert_eq!(
        feed::failed_line("/tmp/s", "gone"),
        "connect to monad-node mempool unix socket (/tmp/s): gone"
    );
}
