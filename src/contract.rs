//! The contract's entry points: minting, burning, direct transfers, and the
//! two-step transfer that asks the receiver first and undoes itself when the
//! receiver refuses.
use vstd::prelude::*;

use crate::event::{nep171_version, NearEvent, Nep171EventKind, NftBurnData, NftMintData, NftTransferData};
use crate::json::optional_text;
use crate::ledger::{approval_map, transfer_error, Ledger, NftError, Token, TokenMetadata, TokenState};

verus! {

/// The deposit, in yoctoNEAR, that a transfer must carry.
pub const ONE_YOCTO: u128 = 1;

/// Gas kept for the step that resolves a transfer with a call.
pub const GAS_FOR_RESOLVE_TRANSFER: u64 = 5_000_000_000_000;

/// Gas that a transfer with a call keeps for itself; the prepaid gas must exceed it.
pub const GAS_FOR_NFT_TRANSFER_CALL: u64 = 25_000_000_000_000 + GAS_FOR_RESOLVE_TRANSFER;

/// The icon of the example metadata.
pub const DATA_IMAGE_SVG_NEAR_ICON: &'static str = "data:image/svg+xml,%3Csvg xmlns='http://www.w3.org/2000/svg' viewBox='0 0 288 288'%3E%3Cg id='l' data-name='l'%3E%3Cpath d='M187.58,79.81l-30.1,44.69a3.2,3.2,0,0,0,4.75,4.2L191.86,103a1.2,1.2,0,0,1,2,.91v80.46a1.2,1.2,0,0,1-2.12.77L102.18,77.93A15.35,15.35,0,0,0,90.47,72.5H87.34A15.34,15.34,0,0,0,72,87.84V201.16A15.34,15.34,0,0,0,87.34,216.5h0a15.35,15.35,0,0,0,13.08-7.31l30.1-44.69a3.2,3.2,0,0,0-4.75-4.2L96.14,186a1.2,1.2,0,0,1-2-.91V104.61a1.2,1.2,0,0,1,2.12-.77l89.55,107.23a15.35,15.35,0,0,0,11.71,5.43h3.13A15.34,15.34,0,0,0,216,201.16V87.84A15.34,15.34,0,0,0,200.66,72.5h0A15.35,15.35,0,0,0,187.58,79.81Z'/%3E%3C/g%3E%3C/svg%3E";

/// Metadata of the whole contract.
pub struct NFTContractMetadata {
    pub spec: String,
    pub name: String,
    pub symbol: String,
    pub icon: Option<String>,
    pub base_uri: Option<String>,
    pub reference: Option<String>,
    pub reference_hash: Option<Vec<u8>>,
}

/// Contract metadata is accepted when it names the NFT metadata standard,
/// and carries a reference exactly when it carries a 32-byte hash of it.
pub open spec fn metadata_valid(m: NFTContractMetadata) -> bool {
    &&& m.spec@ == "nft-1.0.0"@
    &&& (m.reference is Some) == (m.reference_hash is Some)
    &&& (m.reference_hash matches Some(h) ==> h@.len() == 32)
}

/// What the host tells a call about itself.
pub struct CallContext {
    pub predecessor_account_id: String,
    pub attached_deposit: u128,
    pub prepaid_gas: u64,
}

/// What the resolution step of a transfer with a call needs to know.
pub struct TransferContext {
    pub previous_owner_id: String,
    pub receiver_id: String,
    pub token_id: String,
    pub approved_account_ids: Vec<(String, u64)>,
    pub authorized_id: Option<String>,
    pub memo: Option<String>,
}

/// The receiver call that a transfer with a call asks the host to make, and
/// the resolution step to schedule after it.
pub struct TransferCall {
    pub sender_id: String,
    pub msg: String,
    pub receiver_gas: u64,
    pub resolve_gas: u64,
    pub context: TransferContext,
}

/// How the receiver's call ended.
#[derive(Debug, Clone, Copy, PartialEq, Eq, Structural)]
pub enum ReceiverOutcome {
    /// It returned `false`: the receiver keeps the token.
    Accepted,
    /// It returned `true`: the token goes back.
    Rejected,
    /// It failed, or returned something other than a boolean.
    Failed,
}

/// A JSON whitespace byte: space, line feed, tab or carriage return.
pub open spec fn is_json_space(b: u8) -> bool {
    b == 32 || b == 10 || b == 9 || b == 13
}

/// `b` without its leading JSON whitespace.
pub open spec fn trim_start(b: Seq<u8>) -> Seq<u8>
    decreases b.len(),
{
    if b.len() > 0 && is_json_space(b[0]) {
        trim_start(b.drop_first())
    } else {
        b
    }
}

/// `b` without its trailing JSON whitespace.
pub open spec fn trim_end(b: Seq<u8>) -> Seq<u8>
    decreases b.len(),
{
    if b.len() > 0 && is_json_space(b.last()) {
        trim_end(b.drop_last())
    } else {
        b
    }
}

/// The JSON boolean that `bytes` hold, with whitespace around it allowed, or
/// nothing where they hold anything else.
pub open spec fn json_bool_of(bytes: Seq<u8>) -> Option<bool> {
    let t = trim_end(trim_start(bytes));
    if t == seq![116u8, 114u8, 117u8, 101u8] {
        Some(true)
    } else if t == seq![102u8, 97u8, 108u8, 115u8, 101u8] {
        Some(false)
    } else {
        None
    }
}

/// Relies on serde_json::from_slice::<bool> to read the receiver's reply: it
/// skips whitespace, reads `true` or `false`, and refuses anything but
/// whitespace after it.
#[verifier::external_body]
fn parse_json_bool(bytes: &Vec<u8>) -> (r: Option<bool>)
    ensures
        r == json_bool_of(bytes@),
{
    serde_json::from_slice::<bool>(bytes).ok()
}

/// How a receiver's call ended, given the boolean it replied, if any.
pub open spec fn outcome_of(reply: Option<bool>) -> ReceiverOutcome {
    match reply {
        Some(true) => ReceiverOutcome::Rejected,
        Some(false) => ReceiverOutcome::Accepted,
        None => ReceiverOutcome::Failed,
    }
}

/// Classifies a receiver's reply: `true` sends the token back, `false` keeps
/// it, anything else counts as a failure.
pub fn outcome_of_reply(reply: Option<bool>) -> (r: ReceiverOutcome)
    ensures
        r == outcome_of(reply),
{
    match reply {
        Some(true) => ReceiverOutcome::Rejected,
        Some(false) => ReceiverOutcome::Accepted,
        None => ReceiverOutcome::Failed,
    }
}

/// Classifies the result of a receiver's call: the bytes it returned, or
/// nothing where the call failed.
pub fn receiver_outcome(result: Option<Vec<u8>>) -> (r: ReceiverOutcome)
    ensures
        r == match result {
            Some(bytes) => outcome_of(json_bool_of(bytes@)),
            None => ReceiverOutcome::Failed,
        },
{
    match result {
        Some(bytes) => outcome_of_reply(parse_json_bool(&bytes)),
        None => ReceiverOutcome::Failed,
    }
}

/// The account named as having moved a token: the sender, unless it is the owner.
pub open spec fn authorized_by(owner: Seq<char>, sender: Seq<char>) -> Option<Seq<char>> {
    if sender == owner {
        None
    } else {
        Some(sender)
    }
}

/// The ledger after `token_id` went to `receiver`, its approvals cleared.
pub open spec fn transferred(m: Map<Seq<char>, TokenState>, token_id: Seq<char>, receiver: Seq<char>) -> Map<
    Seq<char>,
    TokenState,
> {
    m.insert(token_id, TokenState { owner_id: receiver, approvals: Map::empty(), ..m[token_id] })
}

/// The ledger after `token_id` went back to `owner` with `approvals`.
pub open spec fn restored(
    m: Map<Seq<char>, TokenState>,
    token_id: Seq<char>,
    owner: Seq<char>,
    approvals: Map<Seq<char>, u64>,
) -> Map<Seq<char>, TokenState> {
    m.insert(token_id, TokenState { owner_id: owner, approvals, ..m[token_id] })
}

/// `e` is a version 1.0.0 event reporting one transfer of one token.
pub open spec fn is_transfer_event(
    e: NearEvent,
    old_owner: Seq<char>,
    new_owner: Seq<char>,
    token_id: Seq<char>,
    authorized: Option<Seq<char>>,
    memo: Option<String>,
) -> bool {
    match e {
        NearEvent::Nep171(ev) => ev.version@ == nep171_version() && match ev.event_kind {
            Nep171EventKind::NftTransfer(v) => {
                &&& v@.len() == 1
                &&& v@[0].old_owner_id@ == old_owner
                &&& v@[0].new_owner_id@ == new_owner
                &&& v@[0].token_ids@.len() == 1
                &&& v@[0].token_ids@[0]@ == token_id
                &&& optional_text(v@[0].authorized_id) == authorized
                &&& v@[0].memo == memo
            },
            _ => false,
        },
    }
}

/// `e` is a version 1.0.0 event reporting one token minted for `owner`.
pub open spec fn is_mint_event(e: NearEvent, owner: Seq<char>, token_id: Seq<char>) -> bool {
    match e {
        NearEvent::Nep171(ev) => ev.version@ == nep171_version() && match ev.event_kind {
            Nep171EventKind::NftMint(v) => {
                &&& v@.len() == 1
                &&& v@[0].owner_id@ == owner
                &&& v@[0].token_ids@.len() == 1
                &&& v@[0].token_ids@[0]@ == token_id
                &&& v@[0].memo is None
            },
            _ => false,
        },
    }
}

/// `e` is a version 1.0.0 event reporting one token of `owner` burned.
pub open spec fn is_burn_event(e: NearEvent, owner: Seq<char>, token_id: Seq<char>) -> bool {
    match e {
        NearEvent::Nep171(ev) => ev.version@ == nep171_version() && match ev.event_kind {
            Nep171EventKind::NftBurn(v) => {
                &&& v@.len() == 1
                &&& v@[0].owner_id@ == owner
                &&& v@[0].token_ids@.len() == 1
                &&& v@[0].token_ids@[0]@ == token_id
                &&& v@[0].authorized_id is None
                &&& v@[0].memo is None
            },
            _ => false,
        },
    }
}

fn transfer_event(
    old_owner_id: String,
    new_owner_id: String,
    token_id: String,
    authorized_id: Option<String>,
    memo: Option<String>,
) -> (r: NearEvent)
    ensures
        is_transfer_event(r, old_owner_id@, new_owner_id@, token_id@, optional_text(authorized_id), memo),
{
    let mut token_ids: Vec<String> = Vec::new();
    token_ids.push(token_id);
    let mut data: Vec<NftTransferData> = Vec::new();
    data.push(NftTransferData::new(old_owner_id, new_owner_id, token_ids, authorized_id, memo));
    NearEvent::nft_transfer(data)
}

/// A transfer gives the token to the receiver with no approvals, and leaves
/// every other token as it was.
pub proof fn lemma_transfer_moves_token(
    m: Map<Seq<char>, TokenState>,
    sender: Seq<char>,
    receiver: Seq<char>,
    token_id: Seq<char>,
    approval_id: Option<u64>,
)
    requires
        transfer_error(m, sender, receiver, token_id, approval_id) is None,
    ensures
        transferred(m, token_id, receiver).contains_key(token_id),
        transferred(m, token_id, receiver)[token_id].owner_id == receiver,
        transferred(m, token_id, receiver)[token_id].approvals.is_empty(),
        transferred(m, token_id, receiver).dom() == m.dom(),
        forall|other: Seq<char>| #![auto] other != token_id && m.contains_key(other)
            ==> transferred(m, token_id, receiver)[other] == m[other],
{
    assert(transferred(m, token_id, receiver).dom() =~= m.dom());
}

/// When the receiver refuses a transfer with a call, or fails, and still holds
/// the token at resolution, resolving gives the token back to its previous
/// owner with the approvals it had: the ledger is as before the transfer.
pub proof fn lemma_refused_transfer_restores(
    m: Map<Seq<char>, TokenState>,
    sender: Seq<char>,
    receiver: Seq<char>,
    token_id: Seq<char>,
    approval_id: Option<u64>,
)
    requires
        transfer_error(m, sender, receiver, token_id, approval_id) is None,
    ensures
        transferred(m, token_id, receiver)[token_id].owner_id == receiver,
        restored(transferred(m, token_id, receiver), token_id, m[token_id].owner_id, m[token_id].approvals) == m,
{
    let t = transferred(m, token_id, receiver);
    let back = restored(t, token_id, m[token_id].owner_id, m[token_id].approvals);
    assert(back[token_id] == m[token_id]);
    assert(back =~= m);
}

/// The contract: its owner, its metadata and its token table.
pub struct Contract {
    owner_id: String,
    metadata: NFTContractMetadata,
    tokens: Ledger,
}

impl Contract {
    pub closed spec fn wf(&self) -> bool {
        self.tokens.wf()
    }

    /// The token table, by token id.
    pub closed spec fn view(&self) -> Map<Seq<char>, TokenState> {
        self.tokens@
    }

    pub closed spec fn spec_owner_id(&self) -> Seq<char> {
        self.owner_id@
    }

    pub closed spec fn spec_metadata(&self) -> NFTContractMetadata {
        self.metadata
    }

    pub fn new(owner_id: String, metadata: NFTContractMetadata) -> (r: Contract)
        requires
            metadata_valid(metadata),
        ensures
            r.wf(),
            r@ == Map::<Seq<char>, TokenState>::empty(),
            r.spec_owner_id() == owner_id@,
            r.spec_metadata() == metadata,
    {
        Contract { owner_id, metadata, tokens: Ledger::new() }
    }

    /// A contract owned by `owner_id` with example metadata.
    pub fn new_default_meta(owner_id: String) -> (r: Contract)
        ensures
            r.wf(),
            r@ == Map::<Seq<char>, TokenState>::empty(),
            r.spec_owner_id() == owner_id@,
            r.spec_metadata().spec@ == "nft-1.0.0"@,
            r.spec_metadata().name@ == "Example NEAR non-fungible token"@,
            r.spec_metadata().symbol@ == "EXAMPLE"@,
            r.spec_metadata().icon matches Some(icon) && icon@ == DATA_IMAGE_SVG_NEAR_ICON@,
            r.spec_metadata().base_uri is None,
            r.spec_metadata().reference is None,
            r.spec_metadata().reference_hash is None,
    {
        Self::new(
            owner_id,
            NFTContractMetadata {
                spec: String::from_str("nft-1.0.0"),
                name: String::from_str("Example NEAR non-fungible token"),
                symbol: String::from_str("EXAMPLE"),
                icon: Some(String::from_str(DATA_IMAGE_SVG_NEAR_ICON)),
                base_uri: None,
                reference: None,
                reference_hash: None,
            },
        )
    }

    /// The contract metadata.
    pub fn nft_metadata(&self) -> (r: &NFTContractMetadata)
        ensures
            *r == self.spec_metadata(),
    {
        &self.metadata
    }

    /// The token with this id, if it exists.
    pub fn nft_token(&self, token_id: String) -> (r: Option<Token>)
        requires
            self.wf(),
        ensures
            r is Some <==> self@.contains_key(token_id@),
            r matches Some(t) ==> t.token_id@ == token_id@ && crate::ledger::token_state(t) == self@[token_id@],
    {
        self.tokens.get(&token_id)
    }

    /// Transfers `token_id` to `receiver_id` on behalf of the caller, who must
    /// attach exactly one yoctoNEAR, and reports it in a transfer event.
    pub fn nft_transfer(
        &mut self,
        ctx: &CallContext,
        receiver_id: String,
        token_id: String,
        approval_id: Option<u64>,
        memo: Option<String>,
    ) -> (r: Result<NearEvent, NftError>)
        requires
            old(self).wf(),
        ensures
            final(self).wf(),
            ctx.attached_deposit != ONE_YOCTO ==> r == Err::<NearEvent, NftError>(NftError::Unauthorized),
            ctx.attached_deposit == ONE_YOCTO ==> match transfer_error(
                old(self)@,
                ctx.predecessor_account_id@,
                receiver_id@,
                token_id@,
                approval_id,
            ) {
                Some(e) => r == Err::<NearEvent, NftError>(e),
                None => r is Ok,
            },
            r is Err ==> *final(self) == *old(self),
            r matches Ok(e) ==> {
                &&& final(self)@ == transferred(old(self)@, token_id@, receiver_id@)
                &&& is_transfer_event(
                    e,
                    old(self)@[token_id@].owner_id,
                    receiver_id@,
                    token_id@,
                    authorized_by(old(self)@[token_id@].owner_id, ctx.predecessor_account_id@),
                    memo,
                )
            },
    {
        if ctx.attached_deposit != ONE_YOCTO {
            return Err(NftError::Unauthorized);
        }
        let sender_id = &ctx.predecessor_account_id;
        let (prev_owner, _prev_approvals) = match self.tokens.internal_transfer(
            sender_id,
            &receiver_id,
            &token_id,
            approval_id,
        ) {
            Ok(x) => x,
            Err(e) => {
                return Err(e);
            },
        };
        let authorized_id = if *sender_id == prev_owner {
            None
        } else {
            Some(sender_id.clone())
        };
        Ok(transfer_event(prev_owner, receiver_id, token_id, authorized_id, memo))
    }

    /// First step of a transfer with a call: checks the deposit and the gas,
    /// moves the token to `receiver_id` at once, and describes the receiver
    /// call to make and what its resolution needs.
    pub fn nft_transfer_call(
        &mut self,
        ctx: &CallContext,
        receiver_id: String,
        token_id: String,
        approval_id: Option<u64>,
        memo: Option<String>,
        msg: String,
    ) -> (r: Result<TransferCall, NftError>)
        requires
            old(self).wf(),
        ensures
            final(self).wf(),
            ctx.attached_deposit != ONE_YOCTO ==> r == Err::<TransferCall, NftError>(NftError::Unauthorized),
            ctx.attached_deposit == ONE_YOCTO && ctx.prepaid_gas <= GAS_FOR_NFT_TRANSFER_CALL ==> r == Err::<
                TransferCall,
                NftError,
            >(NftError::InsufficientBudget),
            ctx.attached_deposit == ONE_YOCTO && ctx.prepaid_gas > GAS_FOR_NFT_TRANSFER_CALL ==> match transfer_error(
                old(self)@,
                ctx.predecessor_account_id@,
                receiver_id@,
                token_id@,
                approval_id,
            ) {
                Some(e) => r == Err::<TransferCall, NftError>(e),
                None => r is Ok,
            },
            r is Err ==> *final(self) == *old(self),
            r matches Ok(call) ==> {
                &&& final(self)@ == transferred(old(self)@, token_id@, receiver_id@)
                &&& call.sender_id@ == ctx.predecessor_account_id@
                &&& call.msg == msg
                &&& call.receiver_gas == ctx.prepaid_gas - GAS_FOR_NFT_TRANSFER_CALL
                &&& call.resolve_gas == GAS_FOR_RESOLVE_TRANSFER
                &&& call.context.previous_owner_id@ == old(self)@[token_id@].owner_id
                &&& approval_map(call.context.approved_account_ids@) == old(self)@[token_id@].approvals
                &&& call.context.receiver_id@ == receiver_id@
                &&& call.context.token_id@ == token_id@
                &&& optional_text(call.context.authorized_id) == authorized_by(
                    old(self)@[token_id@].owner_id,
                    ctx.predecessor_account_id@,
                )
                &&& call.context.memo == memo
            },
    {
        if ctx.attached_deposit != ONE_YOCTO {
            return Err(NftError::Unauthorized);
        }
        if ctx.prepaid_gas <= GAS_FOR_NFT_TRANSFER_CALL {
            return Err(NftError::InsufficientBudget);
        }
        let sender_id = &ctx.predecessor_account_id;
        let (prev_owner, prev_approvals) = match self.tokens.internal_transfer(
            sender_id,
            &receiver_id,
            &token_id,
            approval_id,
        ) {
            Ok(x) => x,
            Err(e) => {
                return Err(e);
            },
        };
        let authorized_id = if *sender_id == prev_owner {
            None
        } else {
            Some(sender_id.clone())
        };
        Ok(TransferCall {
            sender_id: sender_id.clone(),
            msg,
            receiver_gas: ctx.prepaid_gas - GAS_FOR_NFT_TRANSFER_CALL,
            resolve_gas: GAS_FOR_RESOLVE_TRANSFER,
            context: TransferContext {
                previous_owner_id: prev_owner,
                receiver_id,
                token_id,
                approved_account_ids: prev_approvals,
                authorized_id,
                memo,
            },
        })
    }

    /// Second step of a transfer with a call. When the receiver accepted, the
    /// transfer stands and is reported; otherwise the token goes back to its
    /// previous owner with its previous approvals, unless the receiver no
    /// longer holds it. Returns whether the receiver keeps the token.
    pub fn nft_resolve_transfer(&mut self, context: TransferContext, outcome: ReceiverOutcome) -> (r: (
        bool,
        Option<NearEvent>,
    ))
        requires
            old(self).wf(),
        ensures
            final(self).wf(),
            outcome == ReceiverOutcome::Accepted ==> {
                &&& r.0
                &&& *final(self) == *old(self)
                &&& r.1 matches Some(e) && is_transfer_event(
                    e,
                    context.previous_owner_id@,
                    context.receiver_id@,
                    context.token_id@,
                    optional_text(context.authorized_id),
                    context.memo,
                )
            },
            outcome != ReceiverOutcome::Accepted ==> {
                &&& r.1 is None
                &&& if old(self)@.contains_key(context.token_id@) && old(self)@[context.token_id@].owner_id
                    == context.receiver_id@ {
                    &&& !r.0
                    &&& final(self)@ == restored(
                        old(self)@,
                        context.token_id@,
                        context.previous_owner_id@,
                        approval_map(context.approved_account_ids@),
                    )
                } else {
                    &&& r.0
                    &&& *final(self) == *old(self)
                }
            },
    {
        let TransferContext {
            previous_owner_id,
            receiver_id,
            token_id,
            approved_account_ids,
            authorized_id,
            memo,
        } = context;
        match outcome {
            ReceiverOutcome::Accepted => {
                let e = transfer_event(previous_owner_id, receiver_id, token_id, authorized_id, memo);
                (true, Some(e))
            },
            _ => {
                match self.tokens.get(&token_id) {
                    Some(t) => {
                        if t.owner_id != receiver_id {
                            return (true, None);
                        }
                    },
                    None => {
                        return (true, None);
                    },
                }
                self.tokens.restore(&token_id, previous_owner_id, approved_account_ids);
                (false, None)
            },
        }
    }

    /// Creates `token_id` for `receiver_id` and reports it in a mint event.
    pub fn nft_mint(&mut self, token_id: String, receiver_id: String, token_metadata: TokenMetadata) -> (r: Result<
        (Token, NearEvent),
        NftError,
    >)
        requires
            old(self).wf(),
        ensures
            final(self).wf(),
            old(self)@.contains_key(token_id@) <==> r is Err,
            r matches Err(e) ==> e == NftError::TokenExists && *final(self) == *old(self),
            r matches Ok((t, e)) ==> {
                &&& t.token_id@ == token_id@
                &&& t.owner_id@ == receiver_id@
                &&& t.metadata == Some(token_metadata)
                &&& t.approved_account_ids@.len() == 0
                &&& t.next_approval_id == 1
                &&& final(self)@ == old(self)@.insert(
                    token_id@,
                    TokenState {
                        owner_id: receiver_id@,
                        approvals: Map::empty(),
                        metadata: Some(token_metadata),
                        next_approval_id: 1,
                    },
                )
                &&& is_mint_event(e, receiver_id@, token_id@)
            },
    {
        let owner = receiver_id.clone();
        let id = token_id.clone();
        let t = match self.tokens.mint(token_id, receiver_id, Some(token_metadata)) {
            Ok(t) => t,
            Err(e) => {
                return Err(e);
            },
        };
        assert(approval_map(t.approved_account_ids@) =~= Map::empty());
        let mut token_ids: Vec<String> = Vec::new();
        token_ids.push(id);
        let mut data: Vec<NftMintData> = Vec::new();
        data.push(NftMintData::new(owner, token_ids, None));
        Ok((t, NearEvent::nft_mint(data)))
    }

    /// Destroys `token_id` and reports it in a burn event naming its last owner.
    pub fn nft_burn(&mut self, token_id: Option<String>) -> (r: Result<NearEvent, NftError>)
        requires
            old(self).wf(),
            token_id is Some,
        ensures
            final(self).wf(),
            !old(self)@.contains_key(token_id->0@) <==> r is Err,
            r matches Err(e) ==> e == NftError::TokenNotFound && *final(self) == *old(self),
            r matches Ok(e) ==> {
                &&& final(self)@ == old(self)@.remove(token_id->0@)
                &&& is_burn_event(e, old(self)@[token_id->0@].owner_id, token_id->0@)
            },
    {
        let id = match token_id {
            Some(id) => id,
            None => {
                return Err(NftError::TokenNotFound);
            },
        };
        let t = match self.tokens.remove(&id) {
            Ok(t) => t,
            Err(e) => {
                return Err(e);
            },
        };
        let mut token_ids: Vec<String> = Vec::new();
        token_ids.push(id);
        let mut data: Vec<NftBurnData> = Vec::new();
        data.push(NftBurnData::new(t.owner_id, token_ids, None, None));
        Ok(NearEvent::nft_burn(data))
    }

    /// Lets `account_id` transfer `token_id` on the caller's behalf. The caller
    /// must own the token and attach at least one yoctoNEAR. Returns the new
    /// approval id, taken from the token's own counter.
    pub fn nft_approve(&mut self, ctx: &CallContext, token_id: String, account_id: String) -> (r: Result<
        u64,
        NftError,
    >)
        requires
            old(self).wf(),
        ensures
            final(self).wf(),
            ctx.attached_deposit < ONE_YOCTO ==> r == Err::<u64, NftError>(NftError::Unauthorized),
            ctx.attached_deposit >= ONE_YOCTO && !old(self)@.contains_key(token_id@) ==> r == Err::<
                u64,
                NftError,
            >(NftError::TokenNotFound),
            ctx.attached_deposit >= ONE_YOCTO && old(self)@.contains_key(token_id@)
                && ctx.predecessor_account_id@ != old(self)@[token_id@].owner_id ==> r == Err::<u64, NftError>(
                NftError::NotAuthorized,
            ),
            ctx.attached_deposit >= ONE_YOCTO && old(self)@.contains_key(token_id@)
                && ctx.predecessor_account_id@ == old(self)@[token_id@].owner_id ==> (r is Err
                <==> old(self)@[token_id@].next_approval_id == u64::MAX),
            ctx.attached_deposit >= ONE_YOCTO && old(self)@.contains_key(token_id@)
                && ctx.predecessor_account_id@ == old(self)@[token_id@].owner_id && r is Err ==> r == Err::<
                u64,
                NftError,
            >(NftError::ApprovalIdsExhausted),
            r is Err ==> *final(self) == *old(self),
            r matches Ok(id) ==> {
                &&& id == old(self)@[token_id@].next_approval_id
                &&& final(self)@ == old(self)@.insert(
                    token_id@,
                    TokenState {
                        approvals: old(self)@[token_id@].approvals.insert(account_id@, id),
                        next_approval_id: (id + 1) as u64,
                        ..old(self)@[token_id@]
                    },
                )
            },
    {
        if ctx.attached_deposit < ONE_YOCTO {
            return Err(NftError::Unauthorized);
        }
        self.tokens.approve(&ctx.predecessor_account_id, &token_id, &account_id)
    }
}

} // verus!
