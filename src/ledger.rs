//! The token table: who owns each token, and which accounts may move it.
use vstd::prelude::*;

verus! {

/// Descriptive data attached to a token when it is minted. The two hashes
/// are held in their base64 text form.
pub struct TokenMetadata {
    pub title: Option<String>,
    pub description: Option<String>,
    pub media: Option<String>,
    pub media_hash: Option<String>,
    pub copies: Option<u64>,
    pub issued_at: Option<String>,
    pub expires_at: Option<String>,
    pub starts_at: Option<String>,
    pub updated_at: Option<String>,
    pub extra: Option<String>,
    pub reference: Option<String>,
    pub reference_hash: Option<String>,
}

/// A token as callers see it.
pub struct Token {
    pub token_id: String,
    pub owner_id: String,
    pub metadata: Option<TokenMetadata>,
    pub approved_account_ids: Vec<(String, u64)>,
    /// The approval id that the next approval of this token receives.
    pub next_approval_id: u64,
}

/// What the ledger records of one token.
pub ghost struct TokenState {
    pub owner_id: Seq<char>,
    pub approvals: Map<Seq<char>, u64>,
    pub metadata: Option<TokenMetadata>,
    pub next_approval_id: u64,
}

/// Approved accounts and their approval ids; a later entry for an account
/// overrides an earlier one.
pub open spec fn approval_map(s: Seq<(String, u64)>) -> Map<Seq<char>, u64>
    decreases s.len(),
{
    if s.len() == 0 {
        Map::empty()
    } else {
        approval_map(s.drop_last()).insert(s.last().0@, s.last().1)
    }
}

/// The ledger's record of a token.
pub open spec fn token_state(t: Token) -> TokenState {
    TokenState {
        owner_id: t.owner_id@,
        approvals: approval_map(t.approved_account_ids@),
        metadata: t.metadata,
        next_approval_id: t.next_approval_id,
    }
}

/// Whether `sender` may move a token with these approvals, given the approval
/// id that the sender cites, if any.
pub open spec fn approved(approvals: Map<Seq<char>, u64>, sender: Seq<char>, approval_id: Option<u64>) -> bool {
    approvals.contains_key(sender) && (approval_id is None || approval_id == Some(approvals[sender]))
}

/// Errors of the ledger and of the operations built on it.
#[derive(Debug, Clone, Copy, PartialEq, Eq, Structural)]
pub enum NftError {
    /// The call did not carry exactly one yoctoNEAR.
    Unauthorized,
    /// The sender neither owns the token nor holds a matching approval.
    NotAuthorized,
    /// No token has this id.
    TokenNotFound,
    /// The prepaid gas does not exceed what the resolution step needs.
    InsufficientBudget,
    /// The receiver already owns the token.
    SameOwner,
    /// A token with this id already exists.
    TokenExists,
    /// The token has no approval id left to hand out.
    ApprovalIdsExhausted,
}

/// Why a transfer of `token_id` is refused, if it is.
pub open spec fn transfer_error(
    m: Map<Seq<char>, TokenState>,
    sender: Seq<char>,
    receiver: Seq<char>,
    token_id: Seq<char>,
    approval_id: Option<u64>,
) -> Option<NftError> {
    if !m.contains_key(token_id) {
        Some(NftError::TokenNotFound)
    } else if sender != m[token_id].owner_id && !approved(m[token_id].approvals, sender, approval_id) {
        Some(NftError::NotAuthorized)
    } else if m[token_id].owner_id == receiver {
        Some(NftError::SameOwner)
    } else {
        None
    }
}

fn copy_text(o: &Option<String>) -> (r: Option<String>)
    ensures
        r == *o,
{
    match o {
        Some(s) => Some(s.clone()),
        None => None,
    }
}

impl TokenMetadata {
    /// A copy of this metadata.
    pub fn duplicate(&self) -> (r: TokenMetadata)
        ensures
            r == *self,
    {
        TokenMetadata {
            title: copy_text(&self.title),
            description: copy_text(&self.description),
            media: copy_text(&self.media),
            media_hash: copy_text(&self.media_hash),
            copies: self.copies,
            issued_at: copy_text(&self.issued_at),
            expires_at: copy_text(&self.expires_at),
            starts_at: copy_text(&self.starts_at),
            updated_at: copy_text(&self.updated_at),
            extra: copy_text(&self.extra),
            reference: copy_text(&self.reference),
            reference_hash: copy_text(&self.reference_hash),
        }
    }
}

fn copy_metadata(o: &Option<TokenMetadata>) -> (r: Option<TokenMetadata>)
    ensures
        r == *o,
{
    match o {
        Some(m) => Some(m.duplicate()),
        None => None,
    }
}

/// A copy of a list of approvals.
pub fn copy_approvals(v: &Vec<(String, u64)>) -> (r: Vec<(String, u64)>)
    ensures
        r@ == v@,
{
    let mut r: Vec<(String, u64)> = Vec::new();
    let mut i: usize = 0;
    while i < v.len()
        invariant
            i <= v@.len(),
            r@ == v@.subrange(0, i as int),
        decreases v@.len() - i,
    {
        r.push((v[i].0.clone(), v[i].1));
        assert(r@ =~= v@.subrange(0, i + 1));
        i = i + 1;
    }
    assert(v@.subrange(0, v@.len() as int) =~= v@);
    r
}

/// The approval id recorded for `account`, if it is approved.
pub fn lookup_approval(v: &Vec<(String, u64)>, account: &String) -> (r: Option<u64>)
    ensures
        r == (if approval_map(v@).contains_key(account@) {
            Some(approval_map(v@)[account@])
        } else {
            None
        }),
{
    let mut r: Option<u64> = None;
    let mut i: usize = 0;
    while i < v.len()
        invariant
            i <= v@.len(),
            r == (if approval_map(v@.subrange(0, i as int)).contains_key(account@) {
                Some(approval_map(v@.subrange(0, i as int))[account@])
            } else {
                None
            }),
        decreases v@.len() - i,
    {
        assert(v@.subrange(0, i + 1).drop_last() =~= v@.subrange(0, i as int));
        if v[i].0 == *account {
            r = Some(v[i].1);
        }
        i = i + 1;
    }
    assert(v@.subrange(0, v@.len() as int) =~= v@);
    r
}

impl Token {
    /// A copy of this token.
    pub fn duplicate(&self) -> (r: Token)
        ensures
            r.token_id == self.token_id,
            r.owner_id == self.owner_id,
            r.metadata == self.metadata,
            r.approved_account_ids@ == self.approved_account_ids@,
            r.next_approval_id == self.next_approval_id,
    {
        Token {
            token_id: self.token_id.clone(),
            owner_id: self.owner_id.clone(),
            metadata: copy_metadata(&self.metadata),
            approved_account_ids: copy_approvals(&self.approved_account_ids),
            next_approval_id: self.next_approval_id,
        }
    }
}

/// The token table. Each token id occurs once.
pub struct Ledger {
    tokens: Vec<Token>,
}

impl Ledger {
    pub closed spec fn has_index(tokens: Seq<Token>, id: Seq<char>, i: int) -> bool {
        0 <= i < tokens.len() && tokens[i].token_id@ == id
    }

    /// Token ids are unique.
    pub closed spec fn wf(&self) -> bool {
        forall|i: int, j: int|
            0 <= i < self.tokens@.len() && 0 <= j < self.tokens@.len() && #[trigger] self.tokens@[i].token_id@
                == #[trigger] self.tokens@[j].token_id@ ==> i == j
    }

    /// The records of the table, by token id.
    pub closed spec fn view(&self) -> Map<Seq<char>, TokenState> {
        Map::new(
            |id: Seq<char>| exists|i: int| Self::has_index(self.tokens@, id, i),
            |id: Seq<char>| token_state(self.tokens@[choose|i: int| Self::has_index(self.tokens@, id, i)]),
        )
    }

    pub fn new() -> (r: Ledger)
        ensures
            r.wf(),
            r@ == Map::<Seq<char>, TokenState>::empty(),
    {
        let r = Ledger { tokens: Vec::new() };
        assert(r@ =~= Map::<Seq<char>, TokenState>::empty());
        r
    }

    proof fn lemma_state_at(&self, i: int)
        requires
            self.wf(),
            0 <= i < self.tokens@.len(),
        ensures
            self@.contains_key(self.tokens@[i].token_id@),
            self@[self.tokens@[i].token_id@] == token_state(self.tokens@[i]),
    {
        let id = self.tokens@[i].token_id@;
        assert(Self::has_index(self.tokens@, id, i));
        let j = choose|j: int| Self::has_index(self.tokens@, id, j);
        assert(self.tokens@[j].token_id@ == self.tokens@[i].token_id@);
    }

    proof fn lemma_update(old_l: &Ledger, new_l: &Ledger, k: int)
        requires
            old_l.wf(),
            0 <= k < old_l.tokens@.len(),
            new_l.tokens@.len() == old_l.tokens@.len(),
            new_l.tokens@[k].token_id@ == old_l.tokens@[k].token_id@,
            forall|j: int| 0 <= j < old_l.tokens@.len() && j != k ==> new_l.tokens@[j] == old_l.tokens@[j],
        ensures
            new_l.wf(),
            new_l@ == old_l@.insert(old_l.tokens@[k].token_id@, token_state(new_l.tokens@[k])),
    {
        let id = old_l.tokens@[k].token_id@;
        let m = old_l@.insert(id, token_state(new_l.tokens@[k]));
        assert forall|i: int| 0 <= i < new_l.tokens@.len() implies #[trigger] new_l.tokens@[i].token_id@
            == old_l.tokens@[i].token_id@ by {
            if i != k {
                assert(new_l.tokens@[i] == old_l.tokens@[i]);
            }
        }
        assert(new_l.wf());
        assert forall|id2: Seq<char>| #[trigger] new_l@.contains_key(id2) == m.contains_key(id2) by {
            if new_l@.contains_key(id2) {
                let j = choose|j: int| Self::has_index(new_l.tokens@, id2, j);
                old_l.lemma_state_at(j);
            }
            if m.contains_key(id2) {
                if id2 == id {
                    new_l.lemma_state_at(k);
                } else {
                    let j = choose|j: int| Self::has_index(old_l.tokens@, id2, j);
                    new_l.lemma_state_at(j);
                }
            }
        }
        assert forall|id2: Seq<char>| #[trigger] new_l@.contains_key(id2) implies new_l@[id2] == m[id2] by {
            let j = choose|j: int| Self::has_index(new_l.tokens@, id2, j);
            new_l.lemma_state_at(j);
            if j != k {
                old_l.lemma_state_at(j);
            }
        }
        assert(new_l@ =~= m);
    }

    proof fn lemma_push(old_l: &Ledger, new_l: &Ledger, t: Token)
        requires
            old_l.wf(),
            !old_l@.contains_key(t.token_id@),
            new_l.tokens@ == old_l.tokens@.push(t),
        ensures
            new_l.wf(),
            new_l@ == old_l@.insert(t.token_id@, token_state(t)),
    {
        let n = old_l.tokens@.len() as int;
        assert forall|i: int| 0 <= i < n implies #[trigger] old_l.tokens@[i].token_id@ != t.token_id@ by {
            old_l.lemma_state_at(i);
        }
        assert(new_l.tokens@[n] == t);
        assert forall|i: int, j: int|
            0 <= i < new_l.tokens@.len() && 0 <= j < new_l.tokens@.len() && #[trigger] new_l.tokens@[i].token_id@
                == #[trigger] new_l.tokens@[j].token_id@ implies i == j by {
            if i < n && j < n {
                assert(old_l.tokens@[i].token_id@ == old_l.tokens@[j].token_id@);
            } else if i < n {
                assert(old_l.tokens@[i].token_id@ != t.token_id@);
            } else if j < n {
                assert(old_l.tokens@[j].token_id@ != t.token_id@);
            }
        }
        let m = old_l@.insert(t.token_id@, token_state(t));
        assert forall|id2: Seq<char>| #[trigger] new_l@.contains_key(id2) == m.contains_key(id2) by {
            if new_l@.contains_key(id2) {
                let j = choose|j: int| Self::has_index(new_l.tokens@, id2, j);
                if j < n {
                    old_l.lemma_state_at(j);
                }
            }
            if m.contains_key(id2) {
                if id2 == t.token_id@ {
                    new_l.lemma_state_at(n);
                } else {
                    let j = choose|j: int| Self::has_index(old_l.tokens@, id2, j);
                    new_l.lemma_state_at(j);
                }
            }
        }
        assert forall|id2: Seq<char>| #[trigger] new_l@.contains_key(id2) implies new_l@[id2] == m[id2] by {
            let j = choose|j: int| Self::has_index(new_l.tokens@, id2, j);
            new_l.lemma_state_at(j);
            if j < n {
                old_l.lemma_state_at(j);
            }
        }
        assert(new_l@ =~= m);
    }

    proof fn lemma_remove(old_l: &Ledger, new_l: &Ledger, k: int)
        requires
            old_l.wf(),
            0 <= k < old_l.tokens@.len(),
            new_l.tokens@ == old_l.tokens@.remove(k),
        ensures
            new_l.wf(),
            new_l@ == old_l@.remove(old_l.tokens@[k].token_id@),
    {
        let id = old_l.tokens@[k].token_id@;
        let m = old_l@.remove(id);
        assert forall|i: int, j: int|
            0 <= i < new_l.tokens@.len() && 0 <= j < new_l.tokens@.len() && #[trigger] new_l.tokens@[i].token_id@
                == #[trigger] new_l.tokens@[j].token_id@ implies i == j by {
            let oi = if i < k { i } else { i + 1 };
            let oj = if j < k { j } else { j + 1 };
            assert(new_l.tokens@[i] == old_l.tokens@[oi]);
            assert(new_l.tokens@[j] == old_l.tokens@[oj]);
            assert(old_l.tokens@[oi].token_id@ == old_l.tokens@[oj].token_id@);
        }
        assert forall|id2: Seq<char>| #[trigger] new_l@.contains_key(id2) == m.contains_key(id2) by {
            if new_l@.contains_key(id2) {
                let j = choose|j: int| Self::has_index(new_l.tokens@, id2, j);
                let oj = if j < k { j } else { j + 1 };
                assert(new_l.tokens@[j] == old_l.tokens@[oj]);
                old_l.lemma_state_at(oj);
            }
            if m.contains_key(id2) {
                let j = choose|j: int| Self::has_index(old_l.tokens@, id2, j);
                old_l.lemma_state_at(j);
                let nj = if j < k { j } else { j - 1 };
                assert(new_l.tokens@[nj] == old_l.tokens@[j]);
                new_l.lemma_state_at(nj);
            }
        }
        assert forall|id2: Seq<char>| #[trigger] new_l@.contains_key(id2) implies new_l@[id2] == m[id2] by {
            let j = choose|j: int| Self::has_index(new_l.tokens@, id2, j);
            new_l.lemma_state_at(j);
            let oj = if j < k { j } else { j + 1 };
            assert(new_l.tokens@[j] == old_l.tokens@[oj]);
            old_l.lemma_state_at(oj);
        }
        assert(new_l@ =~= m);
    }

    /// The token with this id, if it exists.
    pub fn get(&self, token_id: &String) -> (r: Option<Token>)
        requires
            self.wf(),
        ensures
            r is Some <==> self@.contains_key(token_id@),
            r matches Some(t) ==> t.token_id@ == token_id@ && token_state(t) == self@[token_id@],
    {
        match self.find(token_id) {
            Some(k) => {
                let t = self.tokens[k].duplicate();
                assert(t.approved_account_ids@ == self.tokens@[k as int].approved_account_ids@);
                Some(t)
            },
            None => None,
        }
    }

    /// Moves `token_id` from its owner to `receiver_id` on behalf of `sender_id`,
    /// clearing its approvals. Gives back the previous owner and approvals.
    pub fn internal_transfer(
        &mut self,
        sender_id: &String,
        receiver_id: &String,
        token_id: &String,
        approval_id: Option<u64>,
    ) -> (r: Result<(String, Vec<(String, u64)>), NftError>)
        requires
            old(self).wf(),
        ensures
            final(self).wf(),
            match r {
                Ok((prev_owner, prev_approvals)) => {
                    &&& transfer_error(old(self)@, sender_id@, receiver_id@, token_id@, approval_id) is None
                    &&& prev_owner@ == old(self)@[token_id@].owner_id
                    &&& approval_map(prev_approvals@) == old(self)@[token_id@].approvals
                    &&& final(self)@ == old(self)@.insert(
                        token_id@,
                        TokenState { owner_id: receiver_id@, approvals: Map::empty(), ..old(self)@[token_id@] },
                    )
                },
                Err(e) => {
                    &&& transfer_error(old(self)@, sender_id@, receiver_id@, token_id@, approval_id) == Some(e)
                    &&& *final(self) == *old(self)
                },
            },
    {
        let k = match self.find(token_id) {
            Some(k) => k,
            None => {
                return Err(NftError::TokenNotFound);
            },
        };
        if *sender_id != self.tokens[k].owner_id {
            match lookup_approval(&self.tokens[k].approved_account_ids, sender_id) {
                None => {
                    return Err(NftError::NotAuthorized);
                },
                Some(actual) => {
                    if let Some(given) = approval_id {
                        if given != actual {
                            return Err(NftError::NotAuthorized);
                        }
                    }
                },
            }
        }
        if self.tokens[k].owner_id == *receiver_id {
            return Err(NftError::SameOwner);
        }
        let ghost old_l = *self;
        let Token { token_id: tid, owner_id: prev_owner, metadata, approved_account_ids, next_approval_id } =
            self.tokens.remove(k);
        self.tokens.insert(
            k,
            Token { token_id: tid, owner_id: receiver_id.clone(), metadata, approved_account_ids: Vec::new(), next_approval_id },
        );
        proof {
            Self::lemma_update(&old_l, self, k as int);
            assert(approval_map(self.tokens@[k as int].approved_account_ids@) =~= Map::empty());
            assert(token_state(self.tokens@[k as int]) =~= TokenState {
                owner_id: receiver_id@,
                approvals: Map::empty(),
                ..old_l@[token_id@]
            });
        }
        Ok((prev_owner, approved_account_ids))
    }

    /// Gives `token_id` back to `owner_id` with the approvals `approvals`.
    pub fn restore(&mut self, token_id: &String, owner_id: String, approvals: Vec<(String, u64)>)
        requires
            old(self).wf(),
            old(self)@.contains_key(token_id@),
        ensures
            final(self).wf(),
            final(self)@ == old(self)@.insert(
                token_id@,
                TokenState { owner_id: owner_id@, approvals: approval_map(approvals@), ..old(self)@[token_id@] },
            ),
    {
        let k = match self.find(token_id) {
            Some(k) => k,
            None => {
                return;
            },
        };
        let ghost old_l = *self;
        let ghost snapshot = approvals@;
        let Token { token_id: tid, owner_id: _, metadata, approved_account_ids: _, next_approval_id } =
            self.tokens.remove(k);
        self.tokens.insert(k, Token { token_id: tid, owner_id, metadata, approved_account_ids: approvals, next_approval_id });
        proof {
            Self::lemma_update(&old_l, self, k as int);
        }
    }

    /// Adds a token owned by `owner_id`, without approvals.
    pub fn mint(&mut self, token_id: String, owner_id: String, metadata: Option<TokenMetadata>) -> (r: Result<Token, NftError>)
        requires
            old(self).wf(),
        ensures
            final(self).wf(),
            old(self)@.contains_key(token_id@) <==> r is Err,
            r matches Err(e) ==> e == NftError::TokenExists,
            r is Err ==> *final(self) == *old(self),
            r matches Ok(t) ==> {
                &&& t.token_id@ == token_id@
                &&& t.owner_id@ == owner_id@
                &&& t.metadata == metadata
                &&& t.approved_account_ids@.len() == 0
                &&& t.next_approval_id == 1
                &&& final(self)@ == old(self)@.insert(token_id@, token_state(t))
            },
    {
        if let Some(_) = self.find(&token_id) {
            return Err(NftError::TokenExists);
        }
        let t = Token { token_id, owner_id, metadata, approved_account_ids: Vec::new(), next_approval_id: 1 };
        let out = t.duplicate();
        let ghost old_l = *self;
        self.tokens.push(t);
        proof {
            Self::lemma_push(&old_l, self, t);
            assert(token_state(t) == token_state(out));
        }
        Ok(out)
    }

    /// Removes `token_id` from the table and gives back its last record.
    pub fn remove(&mut self, token_id: &String) -> (r: Result<Token, NftError>)
        requires
            old(self).wf(),
        ensures
            final(self).wf(),
            !old(self)@.contains_key(token_id@) <==> r is Err,
            r matches Err(e) ==> e == NftError::TokenNotFound,
            r is Err ==> *final(self) == *old(self),
            r matches Ok(t) ==> {
                &&& t.token_id@ == token_id@
                &&& token_state(t) == old(self)@[token_id@]
                &&& final(self)@ == old(self)@.remove(token_id@)
            },
    {
        match self.find(token_id) {
            Some(k) => {
                let ghost old_l = *self;
                let t = self.tokens.remove(k);
                proof {
                    Self::lemma_remove(&old_l, self, k as int);
                }
                Ok(t)
            },
            None => Err(NftError::TokenNotFound),
        }
    }

    /// Lets `account_id` move `token_id` on its owner's behalf; only the owner
    /// may grant this. Gives back the approval id, taken from the token's own
    /// counter, which starts at 1 when the token is minted.
    pub fn approve(&mut self, sender_id: &String, token_id: &String, account_id: &String) -> (r: Result<u64, NftError>)
        requires
            old(self).wf(),
        ensures
            final(self).wf(),
            !old(self)@.contains_key(token_id@) ==> r == Err::<u64, NftError>(NftError::TokenNotFound),
            old(self)@.contains_key(token_id@) && sender_id@ != old(self)@[token_id@].owner_id ==> r == Err::<
                u64,
                NftError,
            >(NftError::NotAuthorized),
            old(self)@.contains_key(token_id@) && sender_id@ == old(self)@[token_id@].owner_id ==> (r is Err
                <==> old(self)@[token_id@].next_approval_id == u64::MAX),
            old(self)@.contains_key(token_id@) && sender_id@ == old(self)@[token_id@].owner_id && r is Err ==> r
                == Err::<u64, NftError>(NftError::ApprovalIdsExhausted),
            r is Err ==> *final(self) == *old(self),
            r matches Ok(id) ==> {
                &&& id == old(self)@[token_id@].next_approval_id
                &&& final(self)@ == old(self)@.insert(
                    token_id@,
                    TokenState {
                        approvals: old(self)@[token_id@].approvals.insert(account_id@, id),
                        next_approval_id: (id + 1) as u64,
                        ..old(self)@[token_id@]
                    },
                )
            },
    {
        let k = match self.find(token_id) {
            Some(k) => k,
            None => {
                return Err(NftError::TokenNotFound);
            },
        };
        if *sender_id != self.tokens[k].owner_id {
            return Err(NftError::NotAuthorized);
        }
        if self.tokens[k].next_approval_id == u64::MAX {
            return Err(NftError::ApprovalIdsExhausted);
        }
        let ghost old_l = *self;
        let Token { token_id: tid, owner_id, metadata, approved_account_ids, next_approval_id: id } =
            self.tokens.remove(k);
        let mut approvals = approved_account_ids;
        let ghost before = approvals@;
        approvals.push((account_id.clone(), id));
        self.tokens.insert(
            k,
            Token { token_id: tid, owner_id, metadata, approved_account_ids: approvals, next_approval_id: id + 1 },
        );
        proof {
            assert(approvals@.drop_last() =~= before);
            Self::lemma_update(&old_l, self, k as int);
        }
        Ok(id)
    }

    fn find(&self, token_id: &String) -> (r: Option<usize>)
        requires
            self.wf(),
        ensures
            match r {
                Some(i) => Self::has_index(self.tokens@, token_id@, i as int) && self@.contains_key(token_id@)
                    && self@[token_id@] == token_state(self.tokens@[i as int]),
                None => !self@.contains_key(token_id@),
            },
    {
        let mut i: usize = 0;
        while i < self.tokens.len()
            invariant
                self.wf(),
                i <= self.tokens@.len(),
                forall|j: int| 0 <= j < i ==> self.tokens@[j].token_id@ != token_id@,
            decreases self.tokens@.len() - i,
        {
            if self.tokens[i].token_id == *token_id {
                assert(Self::has_index(self.tokens@, token_id@, i as int));
                proof { self.lemma_state_at(i as int); }
                return Some(i);
            }
            i = i + 1;
        }
        assert(!self@.contains_key(token_id@)) by {
            if self@.contains_key(token_id@) {
                let j = choose|j: int| Self::has_index(self.tokens@, token_id@, j);
                assert(self.tokens@[j].token_id@ == token_id@);
            }
        }
        None
    }
}

} // verus!
