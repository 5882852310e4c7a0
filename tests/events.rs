use nft_events::event::{NearEvent, Nep171EventKind, NftBurnData, NftMintData, NftTransferData};

fn s(x: &str) -> String {
    x.to_string()
}

#[test]
fn mint_event_line_omits_absent_memo() {
    let e = NearEvent::nft_mint(vec![NftMintData::new(s("alice"), vec![s("T1")], None)]);
    assert_eq!(
        e.to_json_event_string(),
        "EVENT_JSON:{\"standard\":\"nep171\",\"version\":\"1.0.0\",\"event\":\"mint\",\"data\":[{\"owner_id\":\"alice\",\"token_ids\":[\"T1\"]}]}"
    );
}

#[test]
fn transfer_event_line_with_all_fields() {
    let e = NearEvent::nft_transfer(vec![NftTransferData::new(
        s("alice"),
        s("bob"),
        vec![s("T1"), s("T2")],
        Some(s("carol")),
        Some(s("gift")),
    )]);
    assert_eq!(
        e.to_json_string(),
        "{\"standard\":\"nep171\",\"version\":\"1.0.0\",\"event\":\"transfer\",\"data\":[{\"old_owner_id\":\"alice\",\"new_owner_id\":\"bob\",\"token_ids\":[\"T1\",\"T2\"],\"authorized_id\":\"carol\",\"memo\":\"gift\"}]}"
    );
}

#[test]
fn burn_event_line_batches_entries() {
    let e = NearEvent::nft_burn(vec![
        NftBurnData::new(s("alice"), vec![s("T1")], None, None),
        NftBurnData::new(s("bob"), vec![], None, Some(s("m"))),
    ]);
    assert_eq!(
        e.to_json_string(),
        "{\"standard\":\"nep171\",\"version\":\"1.0.0\",\"event\":\"burn\",\"data\":[{\"owner_id\":\"alice\",\"token_ids\":[\"T1\"]},{\"owner_id\":\"bob\",\"token_ids\":[],\"memo\":\"m\"}]}"
    );
}

#[test]
fn new_171_keeps_given_version() {
    let e = NearEvent::new_171(s("2.0.0"), Nep171EventKind::NftMint(vec![]));
    assert_eq!(
        e.to_json_string(),
        "{\"standard\":\"nep171\",\"version\":\"2.0.0\",\"event\":\"mint\",\"data\":[]}"
    );
    let v1 = NearEvent::new_171_v1(Nep171EventKind::NftBurn(vec![]));
    let NearEvent::Nep171(ev) = v1;
    assert_eq!(ev.version, "1.0.0");
}

#[test]
fn escaped_strings_match_serde_json() {
    let odd = "a\"b\\c\nd\re\tf\u{8}g\u{c}h\u{1}i\u{1f}j\u{7f}é😀";
    let e = NearEvent::nft_mint(vec![NftMintData::new(s(odd), vec![s(odd)], Some(s(odd)))]);
    let quoted = serde_json::to_string(odd).unwrap();
    let expected = format!(
        "{{\"standard\":\"nep171\",\"version\":\"1.0.0\",\"event\":\"mint\",\"data\":[{{\"owner_id\":{q},\"token_ids\":[{q}],\"memo\":{q}}}]}}",
        q = quoted
    );
    assert_eq!(e.to_json_string(), expected);
}

#[test]
fn encoded_events_decode_to_the_same_fields() {
    let e = NearEvent::nft_transfer(vec![NftTransferData::new(
        s("alice"),
        s("bob"),
        vec![s("T\"1")],
        None,
        Some(s("line\nbreak")),
    )]);
    let line = e.to_json_event_string();
    let body = line.strip_prefix("EVENT_JSON:").unwrap();
    let v: serde_json::Value = serde_json::from_str(body).unwrap();
    assert_eq!(v["standard"], "nep171");
    assert_eq!(v["version"], "1.0.0");
    assert_eq!(v["event"], "transfer");
    let d = &v["data"][0];
    assert_eq!(d["old_owner_id"], "alice");
    assert_eq!(d["new_owner_id"], "bob");
    assert_eq!(d["token_ids"][0], "T\"1");
    assert_eq!(d["memo"], "line\nbreak");
    assert!(d.get("authorized_id").is_none());
    assert!(!body.contains("null"));
}
