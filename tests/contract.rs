use nft_events::contract::{
    NFTContractMetadata, receiver_outcome, outcome_of_reply, CallContext, Contract, ReceiverOutcome, GAS_FOR_NFT_TRANSFER_CALL,
    GAS_FOR_RESOLVE_TRANSFER, ONE_YOCTO,
};
use nft_events::event::{NearEvent, Nep171EventKind};
use nft_events::ledger::{NftError, TokenMetadata};

fn s(x: &str) -> String {
    x.to_string()
}

fn meta() -> TokenMetadata {
    TokenMetadata {
        title: Some(s("One")),
        description: None,
        media: None,
        media_hash: None,
        copies: Some(1),
        issued_at: None,
        expires_at: None,
        starts_at: None,
        updated_at: None,
        extra: None,
        reference: None,
        reference_hash: None,
    }
}

fn call(from: &str, deposit: u128, gas: u64) -> CallContext {
    CallContext { predecessor_account_id: s(from), attached_deposit: deposit, prepaid_gas: gas }
}

fn with_token() -> Contract {
    let mut c = Contract::new_default_meta(s("owner"));
    c.nft_mint(s("T1"), s("alice"), meta()).unwrap();
    c
}

fn owner_of(c: &Contract, id: &str) -> Option<String> {
    c.nft_token(s(id)).map(|t| t.owner_id)
}

const GAS: u64 = 100_000_000_000_000;

#[test]
fn mint_records_owner_and_emits_mint_event() {
    let mut c = Contract::new_default_meta(s("owner"));
    let (t, e) = c.nft_mint(s("T1"), s("alice"), meta()).unwrap();
    assert_eq!(t.owner_id, "alice");
    assert_eq!(t.token_id, "T1");
    let got = c.nft_token(s("T1")).unwrap();
    assert_eq!(got.owner_id, "alice");
    assert_eq!(got.metadata.unwrap().title, Some(s("One")));
    assert!(got.approved_account_ids.is_empty());
    assert_eq!(
        e.to_json_event_string(),
        "EVENT_JSON:{\"standard\":\"nep171\",\"version\":\"1.0.0\",\"event\":\"mint\",\"data\":[{\"owner_id\":\"alice\",\"token_ids\":[\"T1\"]}]}"
    );
}

#[test]
fn mint_of_existing_token_fails() {
    let mut c = with_token();
    assert_eq!(c.nft_mint(s("T1"), s("bob"), meta()).err(), Some(NftError::TokenExists));
    assert_eq!(owner_of(&c, "T1"), Some(s("alice")));
}

#[test]
fn burn_emits_burn_event_with_last_owner() {
    let mut c = with_token();
    let e = c.nft_burn(Some(s("T1"))).unwrap();
    assert_eq!(
        e.to_json_event_string(),
        "EVENT_JSON:{\"standard\":\"nep171\",\"version\":\"1.0.0\",\"event\":\"burn\",\"data\":[{\"owner_id\":\"alice\",\"token_ids\":[\"T1\"]}]}"
    );
    assert!(c.nft_token(s("T1")).is_none());
}

#[test]
fn burn_of_absent_token_fails() {
    let mut c = with_token();
    assert_eq!(c.nft_burn(Some(s("T9"))).err(), Some(NftError::TokenNotFound));
    assert_eq!(owner_of(&c, "T1"), Some(s("alice")));
}

#[test]
fn direct_transfer_moves_token_and_clears_approvals() {
    let mut c = with_token();
    c.nft_approve(&call("alice", ONE_YOCTO, GAS), s("T1"), s("carol")).unwrap();
    let e = c.nft_transfer(&call("alice", ONE_YOCTO, GAS), s("bob"), s("T1"), None, Some(s("hi"))).unwrap();
    let t = c.nft_token(s("T1")).unwrap();
    assert_eq!(t.owner_id, "bob");
    assert!(t.approved_account_ids.is_empty());
    assert_eq!(
        e.to_json_event_string(),
        "EVENT_JSON:{\"standard\":\"nep171\",\"version\":\"1.0.0\",\"event\":\"transfer\",\"data\":[{\"old_owner_id\":\"alice\",\"new_owner_id\":\"bob\",\"token_ids\":[\"T1\"],\"memo\":\"hi\"}]}"
    );
}

#[test]
fn approved_account_transfers_and_is_named() {
    let mut c = with_token();
    let id = c.nft_approve(&call("alice", ONE_YOCTO, GAS), s("T1"), s("carol")).unwrap();
    assert_eq!(id, 1);
    let wrong = c.nft_transfer(&call("carol", ONE_YOCTO, GAS), s("bob"), s("T1"), Some(id + 1), None);
    assert_eq!(wrong.err(), Some(NftError::NotAuthorized));
    let e = c.nft_transfer(&call("carol", ONE_YOCTO, GAS), s("bob"), s("T1"), Some(id), None).unwrap();
    let NearEvent::Nep171(ev) = e;
    match ev.event_kind {
        Nep171EventKind::NftTransfer(v) => {
            assert_eq!(v[0].old_owner_id, "alice");
            assert_eq!(v[0].authorized_id, Some(s("carol")));
        }
        _ => panic!("expected a transfer event"),
    }
    assert_eq!(owner_of(&c, "T1"), Some(s("bob")));
}

#[test]
fn transfer_errors() {
    let mut c = with_token();
    let r = c.nft_transfer(&call("bob", ONE_YOCTO, GAS), s("carol"), s("T1"), None, None);
    assert_eq!(r.err(), Some(NftError::NotAuthorized));
    let r = c.nft_transfer(&call("alice", ONE_YOCTO, GAS), s("bob"), s("T9"), None, None);
    assert_eq!(r.err(), Some(NftError::TokenNotFound));
    let r = c.nft_transfer(&call("alice", ONE_YOCTO, GAS), s("alice"), s("T1"), None, None);
    assert_eq!(r.err(), Some(NftError::SameOwner));
    let r = c.nft_approve(&call("bob", ONE_YOCTO, GAS), s("T1"), s("bob"));
    assert_eq!(r.err(), Some(NftError::NotAuthorized));
    assert_eq!(owner_of(&c, "T1"), Some(s("alice")));
}

#[test]
fn wrong_deposit_is_unauthorized_and_changes_nothing() {
    let mut c = with_token();
    for deposit in [0u128, 2, 1_000_000] {
        let r = c.nft_transfer(&call("alice", deposit, GAS), s("bob"), s("T1"), None, None);
        assert_eq!(r.err(), Some(NftError::Unauthorized));
        let r = c.nft_transfer(&call("alice", deposit, GAS), s("bob"), s("T9"), None, None);
        assert_eq!(r.err(), Some(NftError::Unauthorized));
        let r = c.nft_transfer_call(&call("alice", deposit, GAS), s("bob"), s("T1"), None, None, s(""));
        assert_eq!(r.err(), Some(NftError::Unauthorized));
    }
    assert_eq!(owner_of(&c, "T1"), Some(s("alice")));
}

#[test]
fn transfer_call_needs_more_than_reserved_gas() {
    let mut c = with_token();
    let r = c.nft_transfer_call(&call("alice", ONE_YOCTO, GAS_FOR_NFT_TRANSFER_CALL), s("bob"), s("T1"), None, None, s(""));
    assert_eq!(r.err(), Some(NftError::InsufficientBudget));
    assert_eq!(owner_of(&c, "T1"), Some(s("alice")));
    assert_eq!(GAS_FOR_NFT_TRANSFER_CALL, 30_000_000_000_000);
    let r = c.nft_transfer_call(&call("alice", ONE_YOCTO, GAS_FOR_NFT_TRANSFER_CALL + 1), s("bob"), s("T1"), None, None, s(""));
    assert_eq!(r.unwrap().receiver_gas, 1);
}

#[test]
fn rejected_transfer_call_rolls_back() {
    for outcome in [ReceiverOutcome::Rejected, ReceiverOutcome::Failed] {
        let mut c = with_token();
        c.nft_approve(&call("alice", ONE_YOCTO, GAS), s("T1"), s("carol")).unwrap();
        let plan = c.nft_transfer_call(&call("alice", ONE_YOCTO, GAS), s("bob"), s("T1"), None, None, s("msg")).unwrap();
        assert_eq!(owner_of(&c, "T1"), Some(s("bob")));
        assert_eq!(plan.msg, "msg");
        assert_eq!(plan.sender_id, "alice");
        assert_eq!(plan.context.previous_owner_id, "alice");
        assert_eq!(plan.receiver_gas, GAS - GAS_FOR_NFT_TRANSFER_CALL);
        assert_eq!(plan.resolve_gas, GAS_FOR_RESOLVE_TRANSFER);
        let (kept, event) = c.nft_resolve_transfer(plan.context, outcome);
        assert!(!kept);
        assert!(event.is_none());
        let t = c.nft_token(s("T1")).unwrap();
        assert_eq!(t.owner_id, "alice");
        assert_eq!(t.approved_account_ids, vec![(s("carol"), 1)]);
    }
}

#[test]
fn accepted_transfer_call_commits_and_reports() {
    let mut c = with_token();
    let plan = c.nft_transfer_call(&call("alice", ONE_YOCTO, GAS), s("bob"), s("T1"), None, Some(s("m")), s("")).unwrap();
    let (kept, event) = c.nft_resolve_transfer(plan.context, ReceiverOutcome::Accepted);
    assert!(kept);
    assert_eq!(owner_of(&c, "T1"), Some(s("bob")));
    assert_eq!(
        event.unwrap().to_json_event_string(),
        "EVENT_JSON:{\"standard\":\"nep171\",\"version\":\"1.0.0\",\"event\":\"transfer\",\"data\":[{\"old_owner_id\":\"alice\",\"new_owner_id\":\"bob\",\"token_ids\":[\"T1\"],\"memo\":\"m\"}]}"
    );
}

#[test]
fn refused_transfer_is_not_undone_once_token_moved_on() {
    let mut c = with_token();
    let plan = c.nft_transfer_call(&call("alice", ONE_YOCTO, GAS), s("bob"), s("T1"), None, None, s("")).unwrap();
    c.nft_transfer(&call("bob", ONE_YOCTO, GAS), s("dave"), s("T1"), None, None).unwrap();
    let (kept, event) = c.nft_resolve_transfer(plan.context, ReceiverOutcome::Rejected);
    assert!(kept);
    assert!(event.is_none());
    assert_eq!(owner_of(&c, "T1"), Some(s("dave")));
}

#[test]
fn receiver_replies_are_classified() {
    assert_eq!(receiver_outcome(Some(b"true".to_vec())), ReceiverOutcome::Rejected);
    assert_eq!(receiver_outcome(Some(b"false".to_vec())), ReceiverOutcome::Accepted);
    assert_eq!(receiver_outcome(Some(b" false ".to_vec())), ReceiverOutcome::Accepted);
    assert_eq!(receiver_outcome(Some(b"\"yes\"".to_vec())), ReceiverOutcome::Failed);
    assert_eq!(receiver_outcome(Some(b"\ttrue\r\n".to_vec())), ReceiverOutcome::Rejected);
    assert_eq!(receiver_outcome(Some(b"truex".to_vec())), ReceiverOutcome::Failed);
    assert_eq!(receiver_outcome(Some(b"".to_vec())), ReceiverOutcome::Failed);
    assert_eq!(receiver_outcome(None), ReceiverOutcome::Failed);
    assert_eq!(outcome_of_reply(Some(true)), ReceiverOutcome::Rejected);
    assert_eq!(outcome_of_reply(None), ReceiverOutcome::Failed);
}

#[test]
fn default_metadata() {
    let c = Contract::new_default_meta(s("owner"));
    let m = c.nft_metadata();
    assert_eq!(m.spec, "nft-1.0.0");
    assert_eq!(m.name, "Example NEAR non-fungible token");
    assert_eq!(m.symbol, "EXAMPLE");
    assert!(m.icon.as_ref().unwrap().starts_with("data:image/svg+xml"));
    assert!(m.reference.is_none());
}

#[test]
fn new_keeps_given_metadata_and_starts_empty() {
    let m = NFTContractMetadata {
        spec: s("nft-1.0.0"),
        name: s("Mosaics"),
        symbol: s("MOSAIC"),
        icon: None,
        base_uri: Some(s("https://example.org")),
        reference: Some(s("https://example.org/ref.json")),
        reference_hash: Some(vec![7u8; 32]),
    };
    let c = Contract::new(s("owner"), m);
    assert_eq!(c.nft_metadata().name, "Mosaics");
    assert_eq!(c.nft_metadata().reference_hash.as_ref().unwrap().len(), 32);
    assert!(c.nft_token(s("T1")).is_none());
}

#[test]
fn approval_ids_increase_and_later_approval_wins() {
    let mut c = with_token();
    let a = c.nft_approve(&call("alice", ONE_YOCTO, GAS), s("T1"), s("carol")).unwrap();
    let b = c.nft_approve(&call("alice", ONE_YOCTO, GAS), s("T1"), s("carol")).unwrap();
    assert_eq!((a, b), (1, 2));
    let stale = c.nft_transfer(&call("carol", ONE_YOCTO, GAS), s("bob"), s("T1"), Some(a), None);
    assert_eq!(stale.err(), Some(NftError::NotAuthorized));
    c.nft_transfer(&call("carol", ONE_YOCTO, GAS), s("bob"), s("T1"), Some(b), None).unwrap();
    assert_eq!(owner_of(&c, "T1"), Some(s("bob")));
}

#[test]
fn approve_needs_a_deposit_and_counts_per_token() {
    let mut c = with_token();
    c.nft_mint(s("T2"), s("alice"), meta()).unwrap();
    let r = c.nft_approve(&call("alice", 0, GAS), s("T1"), s("carol"));
    assert_eq!(r.err(), Some(NftError::Unauthorized));
    assert!(c.nft_token(s("T1")).unwrap().approved_account_ids.is_empty());
    assert_eq!(c.nft_approve(&call("alice", ONE_YOCTO, GAS), s("T1"), s("carol")), Ok(1));
    assert_eq!(c.nft_approve(&call("alice", ONE_YOCTO, GAS), s("T1"), s("dave")), Ok(2));
    assert_eq!(c.nft_approve(&call("alice", ONE_YOCTO, GAS), s("T2"), s("carol")), Ok(1));
    let r = c.nft_approve(&call("alice", ONE_YOCTO, GAS), s("T9"), s("carol"));
    assert_eq!(r.err(), Some(NftError::TokenNotFound));
}
