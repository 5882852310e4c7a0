//! Standard NEP-171 event records and their log-line encoding.
use vstd::prelude::*;

use crate::json::{
    array, join, lemma_starts_with, lemma_take_array, lemma_take_optional, lemma_take_quoted,
    lemma_take_quoted_array, optional_field, optional_text, push_quoted, push_string_array, quoted,
    quoted_all, starts_with, take_array, take_optional, take_quoted, take_quoted_array, texts,
};

verus! {

/// An entry of an event that can write itself as a JSON object.
pub trait JsonEntry: Sized {
    spec fn json(&self) -> Seq<char>;

    fn push_json(&self, out: &mut String)
        ensures
            final(out)@ == old(out)@ + self.json(),
    ;
}

fn push_optional_field(out: &mut String, key: &str, v: &Option<String>)
    ensures
        final(out)@ == old(out)@ + optional_field(key@, *v),
{
    match v {
        Some(s) => {
            out.append(key);
            push_quoted(out, s.as_str());
            assert(final(out)@ =~= old(out)@ + optional_field(key@, *v));
        },
        None => {
            assert(final(out)@ =~= old(out)@ + optional_field(key@, *v));
        },
    }
}

/// One minted batch: its owner and the tokens created for it.
pub struct NftMintData {
    pub owner_id: String,
    pub token_ids: Vec<String>,
    pub memo: Option<String>,
}

impl NftMintData {
    pub fn new(owner_id: String, token_ids: Vec<String>, memo: Option<String>) -> (r: NftMintData)
        ensures
            r.owner_id@ == owner_id@,
            r.token_ids@ == token_ids@,
            r.memo == memo,
    {
        NftMintData { owner_id, token_ids, memo }
    }
}

impl JsonEntry for NftMintData {
    open spec fn json(&self) -> Seq<char> {
        "{\"owner_id\":"@ + quoted(self.owner_id@) + ",\"token_ids\":"@ + array(
            quoted_all(self.token_ids@),
        ) + optional_field(",\"memo\":"@, self.memo) + "}"@
    }

    fn push_json(&self, out: &mut String) {
        out.append("{\"owner_id\":");
        push_quoted(out, self.owner_id.as_str());
        out.append(",\"token_ids\":");
        push_string_array(out, &self.token_ids);
        push_optional_field(out, ",\"memo\":", &self.memo);
        out.append("}");
        assert(final(out)@ =~= old(out)@ + self.json());
    }
}

/// The fields of a mint entry, as a reader of the log sees them.
pub ghost struct MintFields {
    pub owner_id: Seq<char>,
    pub token_ids: Seq<Seq<char>>,
    pub memo: Option<Seq<char>>,
}

pub open spec fn mint_fields(d: NftMintData) -> MintFields {
    MintFields { owner_id: d.owner_id@, token_ids: texts(d.token_ids@), memo: optional_text(d.memo) }
}

/// Reads a mint entry at the start of `s`, and what follows it.
pub open spec fn take_mint(s: Seq<char>) -> Option<(MintFields, Seq<char>)> {
    let k_owner = "{\"owner_id\":"@;
    let k_ids = ",\"token_ids\":"@;
    if !starts_with(s, k_owner) {
        None
    } else {
        match take_quoted(s.skip(k_owner.len() as int)) {
            Some((owner_id, r1)) => if !starts_with(r1, k_ids) {
                None
            } else {
                match take_quoted_array(r1.skip(k_ids.len() as int)) {
                    Some((token_ids, r2)) => match take_optional(r2, ",\"memo\":"@) {
                        Some((memo, r3)) => if starts_with(r3, "}"@) {
                            Some((MintFields { owner_id, token_ids, memo }, r3.skip(1)))
                        } else {
                            None
                        },
                        None => None,
                    },
                    None => None,
                }
            },
            None => None,
        }
    }
}

proof fn lemma_no_field_before_close(key: Seq<char>, rest: Seq<char>)
    requires
        key.len() > 0,
        key[0] == ',',
    ensures
        !starts_with("}"@ + rest, key),
{
    reveal_strlit("}");
    let s = "}"@ + rest;
    assert(s[0] == '}');
    if key.len() <= s.len() {
        assert(s.subrange(0, key.len() as int)[0] == s[0]);
    }
}

#[verifier::rlimit(30)]
proof fn lemma_take_mint(d: NftMintData, rest: Seq<char>)
    ensures
        take_mint(d.json() + rest) == Some((mint_fields(d), rest)),
{
    let k_owner = "{\"owner_id\":"@;
    let k_ids = ",\"token_ids\":"@;
    let k_memo = ",\"memo\":"@;
    let r3 = "}"@ + rest;
    let r2 = optional_field(k_memo, d.memo) + r3;
    let r1 = k_ids + (array(quoted_all(d.token_ids@)) + r2);
    let s = d.json() + rest;
    assert(s =~= k_owner + (quoted(d.owner_id@) + r1));
    lemma_starts_with(k_owner, quoted(d.owner_id@) + r1);
    lemma_take_quoted(d.owner_id@, r1);
    lemma_starts_with(k_ids, array(quoted_all(d.token_ids@)) + r2);
    lemma_take_quoted_array(d.token_ids@, r2);
    reveal_strlit(",\"memo\":");
    lemma_no_field_before_close(k_memo, rest);
    lemma_take_optional(k_memo, d.memo, r3);
    lemma_starts_with("}"@, rest);
    reveal_strlit("}");
    assert(s.skip(k_owner.len() as int) == quoted(d.owner_id@) + r1);
    assert(take_quoted(s.skip(k_owner.len() as int)) == Some((d.owner_id@, r1)));
    assert(take_quoted_array(r1.skip(k_ids.len() as int)) == Some((texts(d.token_ids@), r2)));
    assert(take_optional(r2, k_memo) == Some((optional_text(d.memo), r3)));
    assert(r3.skip(1) == rest);
}

proof fn lemma_mint_first(d: NftMintData)
    ensures
        d.json().len() > 0 && d.json()[0] == '{',
{
    reveal_strlit("{\"owner_id\":");
    let k_owner = "{\"owner_id\":"@;
    assert(d.json()[0] == k_owner[0]);
}

/// One transferred batch: the previous and the new owner, the tokens moved,
/// and the approved account that moved them on the owner's behalf, if any.
pub struct NftTransferData {
    pub old_owner_id: String,
    pub new_owner_id: String,
    pub token_ids: Vec<String>,
    pub authorized_id: Option<String>,
    pub memo: Option<String>,
}

impl NftTransferData {
    pub fn new(
        old_owner_id: String,
        new_owner_id: String,
        token_ids: Vec<String>,
        authorized_id: Option<String>,
        memo: Option<String>,
    ) -> (r: NftTransferData)
        ensures
            r.old_owner_id@ == old_owner_id@,
            r.new_owner_id@ == new_owner_id@,
            r.token_ids@ == token_ids@,
            r.authorized_id == authorized_id,
            r.memo == memo,
    {
        NftTransferData { old_owner_id, new_owner_id, token_ids, authorized_id, memo }
    }
}

proof fn lemma_keys_differ(k1: Seq<char>, x: Seq<char>, k2: Seq<char>, i: int)
    requires
        0 <= i < k1.len(),
        i < k2.len(),
        k1[i] != k2[i],
    ensures
        !starts_with(k1 + x, k2),
{
    let s = k1 + x;
    assert(s[i] == k1[i]);
    if k2.len() <= s.len() {
        assert(s.subrange(0, k2.len() as int)[i] == s[i]);
    }
}

/// The tail shared by transfer and burn entries reads back: the authorizing
/// account, the memo, and the closing brace.
proof fn lemma_take_auth_memo(authorized_id: Option<String>, memo: Option<String>, rest: Seq<char>)
    ensures
        ({
            let k_auth = ",\"authorized_id\":"@;
            let k_memo = ",\"memo\":"@;
            let r3 = "}"@ + rest;
            let r2b = optional_field(k_memo, memo) + r3;
            &&& take_optional(optional_field(k_auth, authorized_id) + r2b, k_auth) == Some(
                (optional_text(authorized_id), r2b),
            )
            &&& take_optional(r2b, k_memo) == Some((optional_text(memo), r3))
            &&& starts_with(r3, "}"@)
            &&& r3.skip(1) == rest
        }),
{
    reveal_strlit(",\"authorized_id\":");
    reveal_strlit(",\"memo\":");
    reveal_strlit("}");
    let k_auth = ",\"authorized_id\":"@;
    let k_memo = ",\"memo\":"@;
    let r3 = "}"@ + rest;
    let r2b = optional_field(k_memo, memo) + r3;
    lemma_no_field_before_close(k_memo, rest);
    lemma_take_optional(k_memo, memo, r3);
    match memo {
        Some(m) => {
            assert(r2b =~= k_memo + (quoted(m@) + r3));
            lemma_keys_differ(k_memo, quoted(m@) + r3, k_auth, 2);
        },
        None => {
            assert(r2b =~= r3);
            lemma_no_field_before_close(k_auth, rest);
        },
    }
    lemma_take_optional(k_auth, authorized_id, r2b);
    lemma_starts_with("}"@, rest);
}

/// The fields of a transfer entry, as a reader of the log sees them.
pub ghost struct TransferFields {
    pub old_owner_id: Seq<char>,
    pub new_owner_id: Seq<char>,
    pub token_ids: Seq<Seq<char>>,
    pub authorized_id: Option<Seq<char>>,
    pub memo: Option<Seq<char>>,
}

pub open spec fn transfer_fields(d: NftTransferData) -> TransferFields {
    TransferFields {
        old_owner_id: d.old_owner_id@,
        new_owner_id: d.new_owner_id@,
        token_ids: texts(d.token_ids@),
        authorized_id: optional_text(d.authorized_id),
        memo: optional_text(d.memo),
    }
}

/// Reads the authorizing account, the memo and the closing brace that end a
/// transfer or burn entry.
pub open spec fn take_entry_end(s: Seq<char>) -> Option<(Option<Seq<char>>, Option<Seq<char>>, Seq<char>)> {
    match take_optional(s, ",\"authorized_id\":"@) {
        Some((authorized_id, r1)) => match take_optional(r1, ",\"memo\":"@) {
            Some((memo, r2)) => if starts_with(r2, "}"@) {
                Some((authorized_id, memo, r2.skip(1)))
            } else {
                None
            },
            None => None,
        },
        None => None,
    }
}

/// Reads the token ids and the optional fields that end a transfer or burn
/// entry, and what follows the entry.
pub open spec fn take_ids_end(s: Seq<char>) -> Option<
    (Seq<Seq<char>>, Option<Seq<char>>, Option<Seq<char>>, Seq<char>),
> {
    let k_ids = ",\"token_ids\":"@;
    if !starts_with(s, k_ids) {
        None
    } else {
        match take_quoted_array(s.skip(k_ids.len() as int)) {
            Some((token_ids, r1)) => match take_entry_end(r1) {
                Some((authorized_id, memo, r2)) => Some((token_ids, authorized_id, memo, r2)),
                None => None,
            },
            None => None,
        }
    }
}

/// What `take_ids_end` reads.
pub open spec fn ids_end_text(token_ids: Seq<String>, authorized_id: Option<String>, memo: Option<String>) -> Seq<
    char,
> {
    ",\"token_ids\":"@ + array(quoted_all(token_ids)) + optional_field(",\"authorized_id\":"@, authorized_id)
        + optional_field(",\"memo\":"@, memo) + "}"@
}

#[verifier::rlimit(60)]
proof fn lemma_take_ids_end(token_ids: Seq<String>, authorized_id: Option<String>, memo: Option<String>, rest: Seq<char>)
    ensures
        take_ids_end(ids_end_text(token_ids, authorized_id, memo) + rest) == Some(
            (texts(token_ids), optional_text(authorized_id), optional_text(memo), rest),
        ),
{
    let k_ids = ",\"token_ids\":"@;
    let k_auth = ",\"authorized_id\":"@;
    let k_memo = ",\"memo\":"@;
    let r1 = optional_field(k_auth, authorized_id) + (optional_field(k_memo, memo) + ("}"@ + rest));
    let s = ids_end_text(token_ids, authorized_id, memo) + rest;
    assert(s =~= k_ids + (array(quoted_all(token_ids)) + r1));
    lemma_starts_with(k_ids, array(quoted_all(token_ids)) + r1);
    lemma_take_quoted_array(token_ids, r1);
    lemma_take_auth_memo(authorized_id, memo, rest);
    let r3 = "}"@ + rest;
    let r2b = optional_field(k_memo, memo) + r3;
    assert(take_optional(r1, k_auth) == Some((optional_text(authorized_id), r2b)));
    assert(take_optional(r2b, k_memo) == Some((optional_text(memo), r3)));
    assert(take_entry_end(r1) == Some((optional_text(authorized_id), optional_text(memo), rest)));
    assert(s.skip(k_ids.len() as int) == array(quoted_all(token_ids)) + r1);
    assert(take_quoted_array(s.skip(k_ids.len() as int)) == Some((texts(token_ids), r1)));
}

/// Reads a transfer entry at the start of `s`, and what follows it.
pub open spec fn take_transfer(s: Seq<char>) -> Option<(TransferFields, Seq<char>)> {
    let k_old = "{\"old_owner_id\":"@;
    let k_new = ",\"new_owner_id\":"@;
    if !starts_with(s, k_old) {
        None
    } else {
        match take_quoted(s.skip(k_old.len() as int)) {
            Some((old_owner_id, r1)) => if !starts_with(r1, k_new) {
                None
            } else {
                match take_quoted(r1.skip(k_new.len() as int)) {
                    Some((new_owner_id, r2)) => match take_ids_end(r2) {
                        Some((token_ids, authorized_id, memo, r3)) => Some(
                            (TransferFields { old_owner_id, new_owner_id, token_ids, authorized_id, memo }, r3),
                        ),
                        None => None,
                    },
                    None => None,
                }
            },
            None => None,
        }
    }
}

#[verifier::rlimit(60)]
proof fn lemma_take_transfer(d: NftTransferData, rest: Seq<char>)
    ensures
        take_transfer(d.json() + rest) == Some((transfer_fields(d), rest)),
{
    let k_old = "{\"old_owner_id\":"@;
    let k_new = ",\"new_owner_id\":"@;
    let r2 = ids_end_text(d.token_ids@, d.authorized_id, d.memo) + rest;
    let r1 = k_new + (quoted(d.new_owner_id@) + r2);
    let s = d.json() + rest;
    let c = quoted(d.old_owner_id@) + r1;
    assert(s =~= k_old + c);
    lemma_starts_with(k_old, c);
    lemma_take_quoted(d.old_owner_id@, r1);
    lemma_starts_with(k_new, quoted(d.new_owner_id@) + r2);
    lemma_take_quoted(d.new_owner_id@, r2);
    lemma_take_ids_end(d.token_ids@, d.authorized_id, d.memo, rest);
}

proof fn lemma_transfer_first(d: NftTransferData)
    ensures
        d.json().len() > 0 && d.json()[0] == '{',
{
    reveal_strlit("{\"old_owner_id\":");
    let k = "{\"old_owner_id\":"@;
    assert(d.json()[0] == k[0]);
}

impl JsonEntry for NftTransferData {
    open spec fn json(&self) -> Seq<char> {
        "{\"old_owner_id\":"@ + quoted(self.old_owner_id@) + ",\"new_owner_id\":"@ + quoted(
            self.new_owner_id@,
        ) + ids_end_text(self.token_ids@, self.authorized_id, self.memo)
    }

    fn push_json(&self, out: &mut String) {
        out.append("{\"old_owner_id\":");
        push_quoted(out, self.old_owner_id.as_str());
        out.append(",\"new_owner_id\":");
        push_quoted(out, self.new_owner_id.as_str());
        out.append(",\"token_ids\":");
        push_string_array(out, &self.token_ids);
        push_optional_field(out, ",\"authorized_id\":", &self.authorized_id);
        push_optional_field(out, ",\"memo\":", &self.memo);
        out.append("}");
        assert(final(out)@ =~= old(out)@ + self.json());
    }
}

/// One burned batch: the owner and the tokens destroyed.
pub struct NftBurnData {
    pub owner_id: String,
    pub token_ids: Vec<String>,
    pub authorized_id: Option<String>,
    pub memo: Option<String>,
}

impl NftBurnData {
    pub fn new(
        owner_id: String,
        token_ids: Vec<String>,
        authorized_id: Option<String>,
        memo: Option<String>,
    ) -> (r: NftBurnData)
        ensures
            r.owner_id@ == owner_id@,
            r.token_ids@ == token_ids@,
            r.authorized_id == authorized_id,
            r.memo == memo,
    {
        NftBurnData { owner_id, token_ids, authorized_id, memo }
    }
}

impl JsonEntry for NftBurnData {
    open spec fn json(&self) -> Seq<char> {
        "{\"owner_id\":"@ + quoted(self.owner_id@) + ids_end_text(self.token_ids@, self.authorized_id, self.memo)
    }

    fn push_json(&self, out: &mut String) {
        out.append("{\"owner_id\":");
        push_quoted(out, self.owner_id.as_str());
        out.append(",\"token_ids\":");
        push_string_array(out, &self.token_ids);
        push_optional_field(out, ",\"authorized_id\":", &self.authorized_id);
        push_optional_field(out, ",\"memo\":", &self.memo);
        out.append("}");
        assert(final(out)@ =~= old(out)@ + self.json());
    }
}

/// The encodings of a list of entries.
pub open spec fn entries_json<T: JsonEntry>(v: Seq<T>) -> Seq<Seq<char>> {
    v.map_values(|d: T| d.json())
}

fn push_entries<T: JsonEntry>(out: &mut String, v: &Vec<T>)
    ensures
        final(out)@ == old(out)@ + array(entries_json(v@)),
{
    proof { reveal_strlit("["); }
    out.append("[");
    let ghost start = out@;
    let mut i: usize = 0;
    while i < v.len()
        invariant
            i <= v@.len(),
            out@ == start + join(entries_json(v@.subrange(0, i as int))),
        decreases v@.len() - i,
    {
        let ghost before = out@;
        if i > 0 {
            proof { reveal_strlit(","); }
            out.append(",");
        }
        v[i].push_json(out);
        proof {
            let prev = entries_json(v@.subrange(0, i as int));
            let next = entries_json(v@.subrange(0, i + 1));
            assert(next.drop_last() =~= prev);
            assert(next.last() == v@[i as int].json());
            if i == 0 {
                assert(next =~= seq![v@[0].json()]);
                assert(out@ =~= start + join(next));
            } else {
                assert(out@ =~= before + seq![','] + v@[i as int].json());
                assert(out@ =~= start + join(next));
            }
        }
        i = i + 1;
    }
    assert(v@.subrange(0, v@.len() as int) =~= v@);
    proof { reveal_strlit("]"); }
    out.append("]");
    assert(out@ =~= old(out)@ + array(entries_json(v@)));
}

/// What an event reports: one kind of occurrence, batched.
pub enum Nep171EventKind {
    NftMint(Vec<NftMintData>),
    NftTransfer(Vec<NftTransferData>),
    NftBurn(Vec<NftBurnData>),
}

/// The `event` and `data` members of an event's JSON object.
pub open spec fn kind_json(k: Nep171EventKind) -> Seq<char> {
    match k {
        Nep171EventKind::NftMint(v) => "\"event\":\"mint\",\"data\":"@ + array(entries_json(v@)),
        Nep171EventKind::NftTransfer(v) => "\"event\":\"transfer\",\"data\":"@ + array(
            entries_json(v@),
        ),
        Nep171EventKind::NftBurn(v) => "\"event\":\"burn\",\"data\":"@ + array(entries_json(v@)),
    }
}

/// An event of the NEP-171 standard in a given version of it.
pub struct Nep171Event {
    pub version: String,
    pub event_kind: Nep171EventKind,
}

/// An event record, tagged with the standard it belongs to.
pub enum NearEvent {
    Nep171(Nep171Event),
}

/// The version of the standard that this library writes.
pub open spec fn nep171_version() -> Seq<char> {
    "1.0.0"@
}

/// The compact JSON object of an event.
pub open spec fn event_json(e: NearEvent) -> Seq<char> {
    match e {
        NearEvent::Nep171(ev) => "{\"standard\":\"nep171\",\"version\":"@ + quoted(ev.version@) + ","@
            + kind_json(ev.event_kind) + "}"@,
    }
}

/// The log line of an event: a fixed marker, then its JSON object.
pub open spec fn event_line(e: NearEvent) -> Seq<char> {
    "EVENT_JSON:"@ + event_json(e)
}

/// The fields of a burn entry, as a reader of the log sees them.
pub ghost struct BurnFields {
    pub owner_id: Seq<char>,
    pub token_ids: Seq<Seq<char>>,
    pub authorized_id: Option<Seq<char>>,
    pub memo: Option<Seq<char>>,
}

pub open spec fn burn_fields(d: NftBurnData) -> BurnFields {
    BurnFields {
        owner_id: d.owner_id@,
        token_ids: texts(d.token_ids@),
        authorized_id: optional_text(d.authorized_id),
        memo: optional_text(d.memo),
    }
}

/// Reads a burn entry at the start of `s`, and what follows it.
pub open spec fn take_burn(s: Seq<char>) -> Option<(BurnFields, Seq<char>)> {
    let k_owner = "{\"owner_id\":"@;
    if !starts_with(s, k_owner) {
        None
    } else {
        match take_quoted(s.skip(k_owner.len() as int)) {
            Some((owner_id, r1)) => match take_ids_end(r1) {
                Some((token_ids, authorized_id, memo, r2)) => Some(
                    (BurnFields { owner_id, token_ids, authorized_id, memo }, r2),
                ),
                None => None,
            },
            None => None,
        }
    }
}

#[verifier::rlimit(60)]
proof fn lemma_take_burn(d: NftBurnData, rest: Seq<char>)
    ensures
        take_burn(d.json() + rest) == Some((burn_fields(d), rest)),
{
    let k_owner = "{\"owner_id\":"@;
    let r1 = ids_end_text(d.token_ids@, d.authorized_id, d.memo) + rest;
    let s = d.json() + rest;
    let c = quoted(d.owner_id@) + r1;
    assert(s =~= k_owner + c);
    lemma_starts_with(k_owner, c);
    lemma_take_quoted(d.owner_id@, r1);
    lemma_take_ids_end(d.token_ids@, d.authorized_id, d.memo, rest);
}

proof fn lemma_burn_first(d: NftBurnData)
    ensures
        d.json().len() > 0 && d.json()[0] == '{',
{
    reveal_strlit("{\"owner_id\":");
    let k = "{\"owner_id\":"@;
    assert(d.json()[0] == k[0]);
}

/// What an event holds, as a reader of the log sees it.
pub ghost enum KindFields {
    Mint(Seq<MintFields>),
    Transfer(Seq<TransferFields>),
    Burn(Seq<BurnFields>),
}

pub ghost struct EventFields {
    pub version: Seq<char>,
    pub kind: KindFields,
}

pub open spec fn event_fields(e: NearEvent) -> EventFields {
    match e {
        NearEvent::Nep171(ev) => EventFields {
            version: ev.version@,
            kind: kind_fields(ev.event_kind),
        },
    }
}

/// Reads the `event` and `data` members and the closing brace of an event's
/// JSON object, which must end the text.
#[verifier::opaque]
pub open spec fn take_kind(s: Seq<char>) -> Option<KindFields> {
    let h_mint = "\"event\":\"mint\",\"data\":"@;
    let h_transfer = "\"event\":\"transfer\",\"data\":"@;
    let h_burn = "\"event\":\"burn\",\"data\":"@;
    if starts_with(s, h_mint) {
        match take_array(|x: Seq<char>| take_mint(x), s.skip(h_mint.len() as int)) {
            Some((v, r)) => if r == "}"@ {
                Some(KindFields::Mint(v))
            } else {
                None
            },
            None => None,
        }
    } else if starts_with(s, h_transfer) {
        match take_array(|x: Seq<char>| take_transfer(x), s.skip(h_transfer.len() as int)) {
            Some((v, r)) => if r == "}"@ {
                Some(KindFields::Transfer(v))
            } else {
                None
            },
            None => None,
        }
    } else if starts_with(s, h_burn) {
        match take_array(|x: Seq<char>| take_burn(x), s.skip(h_burn.len() as int)) {
            Some((v, r)) => if r == "}"@ {
                Some(KindFields::Burn(v))
            } else {
                None
            },
            None => None,
        }
    } else {
        None
    }
}

/// Reads an event's log line back into what it holds; `None` where the text
/// is not such a line.
pub open spec fn decode_event_line(s: Seq<char>) -> Option<EventFields> {
    let marker = "EVENT_JSON:"@;
    let head = "{\"standard\":\"nep171\",\"version\":"@;
    if !starts_with(s, marker) {
        None
    } else {
        let s1 = s.skip(marker.len() as int);
        if !starts_with(s1, head) {
            None
        } else {
            match take_quoted(s1.skip(head.len() as int)) {
                Some((version, r)) => if starts_with(r, ","@) {
                    match take_kind(r.skip(1)) {
                        Some(kind) => Some(EventFields { version, kind }),
                        None => None,
                    }
                } else {
                    None
                },
                None => None,
            }
        }
    }
}

pub open spec fn kind_fields(k: Nep171EventKind) -> KindFields {
    match k {
        Nep171EventKind::NftMint(v) => KindFields::Mint(v@.map_values(|d: NftMintData| mint_fields(d))),
        Nep171EventKind::NftTransfer(v) => KindFields::Transfer(v@.map_values(|d: NftTransferData| transfer_fields(d))),
        Nep171EventKind::NftBurn(v) => KindFields::Burn(v@.map_values(|d: NftBurnData| burn_fields(d))),
    }
}

#[verifier::rlimit(60)]
proof fn lemma_take_mint_kind(v: Vec<NftMintData>)
    ensures
        take_kind(kind_json(Nep171EventKind::NftMint(v)) + "}"@) == Some(kind_fields(Nep171EventKind::NftMint(v))),
{
    reveal(take_kind);
    let h_mint = "\"event\":\"mint\",\"data\":"@;
    let close = "}"@;
    let enc = |d: NftMintData| d.json();
    let dec = |d: NftMintData| mint_fields(d);
    let p = |x: Seq<char>| take_mint(x);
    assert forall|x: NftMintData, r: Seq<char>| #[trigger] p(enc(x) + r) == Some((dec(x), r)) by {
        lemma_take_mint(x, r);
    }
    assert forall|x: NftMintData| #![trigger enc(x)] enc(x).len() > 0 && enc(x)[0] != ']' by {
        lemma_mint_first(x);
    }
    assert(entries_json(v@) =~= v@.map_values(enc));
    let body = array(v@.map_values(enc)) + close;
    assert(kind_json(Nep171EventKind::NftMint(v)) + close =~= h_mint + body);
    lemma_starts_with(h_mint, body);
    lemma_take_array(p, enc, dec, v@, close);
}

#[verifier::rlimit(60)]
proof fn lemma_take_transfer_kind(v: Vec<NftTransferData>)
    ensures
        take_kind(kind_json(Nep171EventKind::NftTransfer(v)) + "}"@) == Some(
            kind_fields(Nep171EventKind::NftTransfer(v)),
        ),
{
    reveal(take_kind);
    reveal_strlit("\"event\":\"mint\",\"data\":");
    reveal_strlit("\"event\":\"transfer\",\"data\":");
    let h_mint = "\"event\":\"mint\",\"data\":"@;
    let h_transfer = "\"event\":\"transfer\",\"data\":"@;
    let close = "}"@;
    let enc = |d: NftTransferData| d.json();
    let dec = |d: NftTransferData| transfer_fields(d);
    let p = |x: Seq<char>| take_transfer(x);
    assert forall|x: NftTransferData, r: Seq<char>| #[trigger] p(enc(x) + r) == Some((dec(x), r)) by {
        lemma_take_transfer(x, r);
    }
    assert forall|x: NftTransferData| #![trigger enc(x)] enc(x).len() > 0 && enc(x)[0] != ']' by {
        lemma_transfer_first(x);
    }
    assert(entries_json(v@) =~= v@.map_values(enc));
    let body = array(v@.map_values(enc)) + close;
    assert(kind_json(Nep171EventKind::NftTransfer(v)) + close =~= h_transfer + body);
    lemma_keys_differ(h_transfer, body, h_mint, 9);
    lemma_starts_with(h_transfer, body);
    lemma_take_array(p, enc, dec, v@, close);
}

#[verifier::rlimit(60)]
proof fn lemma_take_burn_kind(v: Vec<NftBurnData>)
    ensures
        take_kind(kind_json(Nep171EventKind::NftBurn(v)) + "}"@) == Some(kind_fields(Nep171EventKind::NftBurn(v))),
{
    reveal(take_kind);
    reveal_strlit("\"event\":\"mint\",\"data\":");
    reveal_strlit("\"event\":\"transfer\",\"data\":");
    reveal_strlit("\"event\":\"burn\",\"data\":");
    let h_mint = "\"event\":\"mint\",\"data\":"@;
    let h_transfer = "\"event\":\"transfer\",\"data\":"@;
    let h_burn = "\"event\":\"burn\",\"data\":"@;
    let close = "}"@;
    let enc = |d: NftBurnData| d.json();
    let dec = |d: NftBurnData| burn_fields(d);
    let p = |x: Seq<char>| take_burn(x);
    assert forall|x: NftBurnData, r: Seq<char>| #[trigger] p(enc(x) + r) == Some((dec(x), r)) by {
        lemma_take_burn(x, r);
    }
    assert forall|x: NftBurnData| #![trigger enc(x)] enc(x).len() > 0 && enc(x)[0] != ']' by {
        lemma_burn_first(x);
    }
    assert(entries_json(v@) =~= v@.map_values(enc));
    let body = array(v@.map_values(enc)) + close;
    assert(kind_json(Nep171EventKind::NftBurn(v)) + close =~= h_burn + body);
    lemma_keys_differ(h_burn, body, h_mint, 9);
    lemma_keys_differ(h_burn, body, h_transfer, 9);
    lemma_starts_with(h_burn, body);
    lemma_take_array(p, enc, dec, v@, close);
}

proof fn lemma_take_kind(k: Nep171EventKind)
    ensures
        take_kind(kind_json(k) + "}"@) == Some(kind_fields(k)),
{
    match k {
        Nep171EventKind::NftMint(v) => lemma_take_mint_kind(v),
        Nep171EventKind::NftTransfer(v) => lemma_take_transfer_kind(v),
        Nep171EventKind::NftBurn(v) => lemma_take_burn_kind(v),
    }
}

/// Writing an event's log line and reading it back gives what the event
/// holds: its version, its kind, and each entry's fields. An optional field
/// that the event lacks reads back as absent: its key is not in the line at all.
#[verifier::rlimit(60)]
pub proof fn lemma_event_line_round_trip(e: NearEvent)
    ensures
        decode_event_line(event_line(e)) == Some(event_fields(e)),
{
    let marker = "EVENT_JSON:"@;
    let head = "{\"standard\":\"nep171\",\"version\":"@;
    match e {
        NearEvent::Nep171(ev) => {
            lemma_take_kind(ev.event_kind);
            let tail = kind_json(ev.event_kind) + "}"@;
            let r = ","@ + tail;
            let body = quoted(ev.version@) + r;
            assert(event_json(e) =~= head + body);
            assert(event_line(e) =~= marker + (head + body));
            lemma_starts_with(marker, head + body);
            lemma_starts_with(head, body);
            lemma_take_quoted(ev.version@, r);
            lemma_starts_with(","@, tail);
            reveal_strlit(",");
            let s = event_line(e);
            let s1 = s.skip(marker.len() as int);
            assert(s1 == head + body);
            assert(starts_with(s1, head));
            assert(s1.skip(head.len() as int) == body);
            assert(take_quoted(body) == Some((ev.version@, r)));
            assert(starts_with(r, ","@));
            assert(r.skip(1) == tail);
            assert(take_kind(tail) == Some(kind_fields(ev.event_kind)));
            assert(event_fields(e) == EventFields { version: ev.version@, kind: kind_fields(ev.event_kind) });
        },
    }
}

impl NearEvent {
    pub fn new_171(version: String, event_kind: Nep171EventKind) -> (r: NearEvent)
        ensures
            r == (NearEvent::Nep171(Nep171Event { version, event_kind })),
    {
        NearEvent::Nep171(Nep171Event { version, event_kind })
    }

    pub fn new_171_v1(event_kind: Nep171EventKind) -> (r: NearEvent)
        ensures
            r matches NearEvent::Nep171(ev) && ev.version@ == nep171_version() && ev.event_kind
                == event_kind,
    {
        NearEvent::new_171(String::from_str("1.0.0"), event_kind)
    }

    pub fn nft_burn(data: Vec<NftBurnData>) -> (r: NearEvent)
        ensures
            r matches NearEvent::Nep171(ev) && ev.version@ == nep171_version() && ev.event_kind
                == Nep171EventKind::NftBurn(data),
    {
        NearEvent::new_171_v1(Nep171EventKind::NftBurn(data))
    }

    pub fn nft_transfer(data: Vec<NftTransferData>) -> (r: NearEvent)
        ensures
            r matches NearEvent::Nep171(ev) && ev.version@ == nep171_version() && ev.event_kind
                == Nep171EventKind::NftTransfer(data),
    {
        NearEvent::new_171_v1(Nep171EventKind::NftTransfer(data))
    }

    pub fn nft_mint(data: Vec<NftMintData>) -> (r: NearEvent)
        ensures
            r matches NearEvent::Nep171(ev) && ev.version@ == nep171_version() && ev.event_kind
                == Nep171EventKind::NftMint(data),
    {
        NearEvent::new_171_v1(Nep171EventKind::NftMint(data))
    }

    /// The compact JSON object of this event.
    pub fn to_json_string(&self) -> (r: String)
        ensures
            r@ == event_json(*self),
    {
        let mut out = String::new();
        match self {
            NearEvent::Nep171(ev) => {
                out.append("{\"standard\":\"nep171\",\"version\":");
                push_quoted(&mut out, ev.version.as_str());
                out.append(",");
                match &ev.event_kind {
                    Nep171EventKind::NftMint(v) => {
                        out.append("\"event\":\"mint\",\"data\":");
                        push_entries(&mut out, v);
                    },
                    Nep171EventKind::NftTransfer(v) => {
                        out.append("\"event\":\"transfer\",\"data\":");
                        push_entries(&mut out, v);
                    },
                    Nep171EventKind::NftBurn(v) => {
                        out.append("\"event\":\"burn\",\"data\":");
                        push_entries(&mut out, v);
                    },
                }
                out.append("}");
            },
        }
        assert(out@ =~= event_json(*self));
        out
    }

    /// The log line that announces this event.
    pub fn to_json_event_string(&self) -> (r: String)
        ensures
            r@ == event_line(*self),
    {
        let mut out = String::from_str("EVENT_JSON:");
        let body = self.to_json_string();
        out.append(body.as_str());
        out
    }
}

} // verus!
