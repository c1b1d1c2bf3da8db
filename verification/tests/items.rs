use frey::ids::{CallId, ProviderId, ToolName};
use frey::item::{
    debug_item, is_zero, Caller, DiscoveryItem, Item, Media, MediaSource, OpaqueItem, ProviderCarry, ReasoningItem,
    ReasoningVisibility, Role, ToolCallItem, Turn,
};
use frey::json::Json;
use frey::taint::Provenance;


#[test]
fn reasoning_without_carry_does_not_claim_to_need_round_tripping() {
    let item = Item::Reasoning(ReasoningItem {
        summary: Some("thought about it".into()),
        visibility: ReasoningVisibility::Plain,
        carry: None,
    });
    assert!(!item.must_round_trip());
}


#[test]
fn a_turn_knows_its_calls_and_what_must_go_back() {
    let turn = Turn::new(
        Role::Assistant,
        vec![
            Item::text("I'll look that up."),
            Item::Reasoning(ReasoningItem {
                summary: None,
                visibility: ReasoningVisibility::Encrypted,
                carry: Some(ProviderCarry {
                    provider: ProviderId::new("openai"),
                    payload: "\"opaque-blob\"".into(),
                }),
            }),
            Item::ToolCall(ToolCallItem {
                id: CallId::new("call_1"),
                name: ToolName::new("fs_read"),
                args: Json::empty().with("path", Json::text("src/main.rs")),
                caller: Caller::Code { runner: "srvtoolu_9".into() },
            }),
            Item::Opaque(OpaqueItem {
                provider: ProviderId::new("openai"),
                kind: "web_search_call".into(),
                raw: "{\"status\":\"completed\"}".into(),
            }),
        ],
    );
    assert!(turn.has_provider_carry());
    assert_eq!(turn.tool_calls().len(), 1);
    assert!(turn.tool_calls()[0].caller.is_code());
    assert!(turn.items[1].must_round_trip() && turn.items[3].must_round_trip());
    assert_eq!(turn.clone(), turn);
}

#[test]
fn items_without_text_are_shown_as_they_are_built() {
    let item = Item::Opaque(OpaqueItem {
        provider: ProviderId::new("openai"),
        kind: "k\"q".into(),
        raw: "{}".into(),
    });
    assert_eq!(
        debug_item(&item),
        "Opaque(OpaqueItem { provider: ProviderId(\"openai\"), kind: \"k\\\"q\", raw: RawValue({}) })"
    );
    let found = Item::Discovery(DiscoveryItem {
        found: vec![ToolName::new("a"), ToolName::new("b")],
        via: "bm25".into(),
        est_tokens: 7,
    });
    assert_eq!(
        debug_item(&found),
        "Discovery(DiscoveryItem { found: [ToolName(\"a\"), ToolName(\"b\")], via: \"bm25\", est_tokens: 7 })"
    );
}

#[test]
fn nothing_elided_is_left_off() {
    assert!(is_zero(&0));
    assert!(!is_zero(&1));
}

#[test]
fn media_is_visible_to_the_cache_planner() {
    let turn = Turn::new(
        Role::User,
        vec![
            Item::text("what is this?"),
            Item::Media(Media::Image {
                mime: "image/png".into(),
                source: MediaSource::Url { url: "https://example.test/x.png".into() },
                detail: Some("high".into()),
            }),
        ],
    );
    assert!(turn.has_media(), "adding an image invalidates cache segments on some providers");
}

#[test]
fn calls_and_their_results_share_an_id() {
    let call = Item::ToolCall(ToolCallItem {
        id: CallId::new("c1"),
        name: ToolName::new("fs_read"),
        args: Json::empty(),
        caller: Caller::Direct,
    });
    assert_eq!(call.call_id(), Some(&CallId::new("c1")));
    let text = Item::text_from("hi", Provenance::new("tool:x"));
    assert_eq!(text.call_id(), None);
    let Item::Text(t) = &text else { panic!("expected text") };
    assert_eq!(t.provenance.as_ref().unwrap().origin, "tool:x");
}
