//! Append-only audit events, each sealed by a hash that chains it to the previous one.
use vstd::prelude::*;

use crate::account::{account_type_str, type_str, Account, AccountView};
use crate::hash::{hex_lower, sha256_digest, ContentHash};
use crate::ids::{uuid_now_v7, uuid_str, uuid_to_string, ImportBatchId, TransactionId};
use crate::posting::opt_str;
use crate::snapshot::{
    list_canon, opt_quoted, push_opt_quoted, push_quoted, push_tags, push_tx, quoted, tags_canon,
    tx_canon,
};
use crate::text::{chars_of, nat_str, nat_str_u128, push_chars, push_str, str_eq, string_of};
use crate::transaction::{strings_view, Transaction, TxView};

verus! {

#[derive(Clone, Copy, PartialEq, Eq, Structural, Debug)]
pub enum EventKind {
    /// Chart-of-accounts upsert.
    AccountUpserted,
    /// Balanced transaction accepted into the ledger.
    Posted,
    Imported,
    Normalized,
    Deduped,
    Categorized,
    Reconciled,
    ManualEdit,
}

/// The stored (snake_case) name of an event kind.
pub open spec fn kind_str(k: EventKind) -> Seq<char> {
    match k {
        EventKind::AccountUpserted => "account_upserted"@,
        EventKind::Posted => "posted"@,
        EventKind::Imported => "imported"@,
        EventKind::Normalized => "normalized"@,
        EventKind::Deduped => "deduped"@,
        EventKind::Categorized => "categorized"@,
        EventKind::Reconciled => "reconciled"@,
        EventKind::ManualEdit => "manual_edit"@,
    }
}

pub open spec fn known_kind(s: Seq<char>) -> bool {
    s == "account_upserted"@ || s == "posted"@ || s == "imported"@ || s == "normalized"@
        || s == "deduped"@ || s == "categorized"@ || s == "reconciled"@ || s == "manual_edit"@
}

/// The stored name of an event kind.
pub fn event_kind_str(kind: EventKind) -> (r: &'static str)
    ensures
        r@ == kind_str(kind),
{
    match kind {
        EventKind::AccountUpserted => "account_upserted",
        EventKind::Posted => "posted",
        EventKind::Imported => "imported",
        EventKind::Normalized => "normalized",
        EventKind::Deduped => "deduped",
        EventKind::Categorized => "categorized",
        EventKind::Reconciled => "reconciled",
        EventKind::ManualEdit => "manual_edit",
    }
}

/// Reads a stored event kind; any other text is refused.
pub fn parse_event_kind(s: &str) -> (r: Result<EventKind, String>)
    ensures
        r matches Ok(k) ==> kind_str(k) == s@,
        r is Err <==> !known_kind(s@),
        r matches Err(m) ==> m@ == "unknown event kind: "@ + s@,
{
    if str_eq(s, "account_upserted") {
        Ok(EventKind::AccountUpserted)
    } else if str_eq(s, "posted") {
        Ok(EventKind::Posted)
    } else if str_eq(s, "imported") {
        Ok(EventKind::Imported)
    } else if str_eq(s, "normalized") {
        Ok(EventKind::Normalized)
    } else if str_eq(s, "deduped") {
        Ok(EventKind::Deduped)
    } else if str_eq(s, "categorized") {
        Ok(EventKind::Categorized)
    } else if str_eq(s, "reconciled") {
        Ok(EventKind::Reconciled)
    } else if str_eq(s, "manual_edit") {
        Ok(EventKind::ManualEdit)
    } else {
        let mut m = string_of(chars_of("unknown event kind: ").as_slice());
        push_str(&mut m, s);
        Err(m)
    }
}

/// Reading back the stored name of an event kind gives the same kind.
pub proof fn law_event_kind_round_trip(k: EventKind, u: EventKind)
    requires
        kind_str(u) == kind_str(k),
    ensures
        u == k,
{
    reveal_strlit("account_upserted");
    reveal_strlit("posted");
    reveal_strlit("imported");
    reveal_strlit("normalized");
    reveal_strlit("deduped");
    reveal_strlit("categorized");
    reveal_strlit("reconciled");
    reveal_strlit("manual_edit");
    assert(kind_str(EventKind::AccountUpserted) =~= seq!['a', 'c', 'c', 'o', 'u', 'n', 't', '_', 'u', 'p', 's', 'e', 'r', 't', 'e', 'd']);
    assert(kind_str(EventKind::Posted) =~= seq!['p', 'o', 's', 't', 'e', 'd']);
    assert(kind_str(EventKind::Imported) =~= seq!['i', 'm', 'p', 'o', 'r', 't', 'e', 'd']);
    assert(kind_str(EventKind::Normalized) =~= seq!['n', 'o', 'r', 'm', 'a', 'l', 'i', 'z', 'e', 'd']);
    assert(kind_str(EventKind::Deduped) =~= seq!['d', 'e', 'd', 'u', 'p', 'e', 'd']);
    assert(kind_str(EventKind::Categorized) =~= seq!['c', 'a', 't', 'e', 'g', 'o', 'r', 'i', 'z', 'e', 'd']);
    assert(kind_str(EventKind::Reconciled) =~= seq!['r', 'e', 'c', 'o', 'n', 'c', 'i', 'l', 'e', 'd']);
    assert(kind_str(EventKind::ManualEdit) =~= seq!['m', 'a', 'n', 'u', 'a', 'l', '_', 'e', 'd', 'i', 't']);
    assert(kind_str(k).len() == kind_str(u).len());
    assert(kind_str(k)[0] == kind_str(u)[0]);
    match k {
        EventKind::AccountUpserted => match u { EventKind::AccountUpserted => {}, EventKind::Posted => {}, EventKind::Imported => {}, EventKind::Normalized => {}, EventKind::Deduped => {}, EventKind::Categorized => {}, EventKind::Reconciled => {}, EventKind::ManualEdit => {} },
        EventKind::Posted => match u { EventKind::AccountUpserted => {}, EventKind::Posted => {}, EventKind::Imported => {}, EventKind::Normalized => {}, EventKind::Deduped => {}, EventKind::Categorized => {}, EventKind::Reconciled => {}, EventKind::ManualEdit => {} },
        EventKind::Imported => match u { EventKind::AccountUpserted => {}, EventKind::Posted => {}, EventKind::Imported => {}, EventKind::Normalized => {}, EventKind::Deduped => {}, EventKind::Categorized => {}, EventKind::Reconciled => {}, EventKind::ManualEdit => {} },
        EventKind::Normalized => match u { EventKind::AccountUpserted => {}, EventKind::Posted => {}, EventKind::Imported => {}, EventKind::Normalized => {}, EventKind::Deduped => {}, EventKind::Categorized => {}, EventKind::Reconciled => {}, EventKind::ManualEdit => {} },
        EventKind::Deduped => match u { EventKind::AccountUpserted => {}, EventKind::Posted => {}, EventKind::Imported => {}, EventKind::Normalized => {}, EventKind::Deduped => {}, EventKind::Categorized => {}, EventKind::Reconciled => {}, EventKind::ManualEdit => {} },
        EventKind::Categorized => match u { EventKind::AccountUpserted => {}, EventKind::Posted => {}, EventKind::Imported => {}, EventKind::Normalized => {}, EventKind::Deduped => {}, EventKind::Categorized => {}, EventKind::Reconciled => {}, EventKind::ManualEdit => {} },
        EventKind::Reconciled => match u { EventKind::AccountUpserted => {}, EventKind::Posted => {}, EventKind::Imported => {}, EventKind::Normalized => {}, EventKind::Deduped => {}, EventKind::Categorized => {}, EventKind::Reconciled => {}, EventKind::ManualEdit => {} },
        EventKind::ManualEdit => match u { EventKind::AccountUpserted => {}, EventKind::Posted => {}, EventKind::Imported => {}, EventKind::Normalized => {}, EventKind::Deduped => {}, EventKind::Categorized => {}, EventKind::Reconciled => {}, EventKind::ManualEdit => {} },
    }
}

#[derive(Clone, Debug)]
pub enum EventPayload {
    AccountUpserted { account: Account },
    Posted { transaction: Transaction },
    Imported { batch_id: ImportBatchId, source_path: String, source_sha256: ContentHash, row_count: u64 },
    Normalized { transaction_id: TransactionId, reasons: Vec<String> },
    Deduped { duplicate_id: TransactionId, survivor_id: TransactionId, strategy: String, explanation: String },
    Categorized {
        transaction_id: TransactionId,
        category: String,
        rule_id: String,
        confidence: u8,
        reasons: Vec<String>,
    },
    Reconciled {
        account: String,
        as_of: String,
        ending_balance: String,
        matched: u64,
        unmatched: u64,
        unexplained_delta: String,
        report_path: Option<String>,
    },
    ManualEdit { transaction_id: TransactionId, summary: String },
}

pub enum PayloadView {
    AccountUpserted { account: AccountView },
    Posted { transaction: TxView },
    Imported { batch_id: u128, source_path: Seq<char>, source_sha256: Seq<char>, row_count: u64 },
    Normalized { transaction_id: u128, reasons: Seq<Seq<char>> },
    Deduped { duplicate_id: u128, survivor_id: u128, strategy: Seq<char>, explanation: Seq<char> },
    Categorized {
        transaction_id: u128,
        category: Seq<char>,
        rule_id: Seq<char>,
        confidence: u8,
        reasons: Seq<Seq<char>>,
    },
    Reconciled {
        account: Seq<char>,
        as_of: Seq<char>,
        ending_balance: Seq<char>,
        matched: u64,
        unmatched: u64,
        unexplained_delta: Seq<char>,
        report_path: Option<Seq<char>>,
    },
    ManualEdit { transaction_id: u128, summary: Seq<char> },
}

impl View for EventPayload {
    type V = PayloadView;

    open spec fn view(&self) -> PayloadView {
        match self {
            EventPayload::AccountUpserted { account } => PayloadView::AccountUpserted { account: account@ },
            EventPayload::Posted { transaction } => PayloadView::Posted { transaction: transaction@ },
            EventPayload::Imported { batch_id, source_path, source_sha256, row_count } => PayloadView::Imported {
                batch_id: batch_id.0,
                source_path: source_path@,
                source_sha256: source_sha256@,
                row_count: *row_count,
            },
            EventPayload::Normalized { transaction_id, reasons } => PayloadView::Normalized {
                transaction_id: transaction_id.0,
                reasons: strings_view(reasons@),
            },
            EventPayload::Deduped { duplicate_id, survivor_id, strategy, explanation } => PayloadView::Deduped {
                duplicate_id: duplicate_id.0,
                survivor_id: survivor_id.0,
                strategy: strategy@,
                explanation: explanation@,
            },
            EventPayload::Categorized { transaction_id, category, rule_id, confidence, reasons } => PayloadView::Categorized {
                transaction_id: transaction_id.0,
                category: category@,
                rule_id: rule_id@,
                confidence: *confidence,
                reasons: strings_view(reasons@),
            },
            EventPayload::Reconciled { account, as_of, ending_balance, matched, unmatched, unexplained_delta, report_path } => PayloadView::Reconciled {
                account: account@,
                as_of: as_of@,
                ending_balance: ending_balance@,
                matched: *matched,
                unmatched: *unmatched,
                unexplained_delta: unexplained_delta@,
                report_path: opt_str(*report_path),
            },
            EventPayload::ManualEdit { transaction_id, summary } => PayloadView::ManualEdit {
                transaction_id: transaction_id.0,
                summary: summary@,
            },
        }
    }
}

pub open spec fn account_canon(a: AccountView) -> Seq<char> {
    "{id="@ + quoted(a.id) + ";type="@ + type_str(a.account_type) + ";commodity="@ + quoted(a.commodity)
        + ";name="@ + quoted(a.name) + "}"@
}

pub open spec fn imported_canon(batch_id: u128, source_path: Seq<char>, source_sha256: Seq<char>, row_count: u64) -> Seq<char> {
    "imported:{batch="@ + uuid_str(batch_id) + ";source="@ + quoted(source_path) + ";sha256="@
        + quoted(source_sha256) + ";rows="@ + nat_str(row_count as nat) + "}"@
}

pub open spec fn normalized_canon(transaction_id: u128, reasons: Seq<Seq<char>>) -> Seq<char> {
    "normalized:{tx="@ + uuid_str(transaction_id) + ";reasons=["@ + tags_canon(reasons) + "]}"@
}

pub open spec fn deduped_canon(duplicate_id: u128, survivor_id: u128, strategy: Seq<char>, explanation: Seq<char>) -> Seq<char> {
    "deduped:{duplicate="@ + uuid_str(duplicate_id) + ";survivor="@ + uuid_str(survivor_id) + ";strategy="@
        + quoted(strategy) + ";explanation="@ + quoted(explanation) + "}"@
}

pub open spec fn categorized_canon(transaction_id: u128, category: Seq<char>, rule_id: Seq<char>, confidence: u8, reasons: Seq<Seq<char>>) -> Seq<char> {
    "categorized:{tx="@ + uuid_str(transaction_id) + ";category="@ + quoted(category) + ";rule="@ + quoted(rule_id)
        + ";confidence="@ + nat_str(confidence as nat) + ";reasons=["@ + tags_canon(reasons) + "]}"@
}

pub open spec fn reconciled_canon(
    account: Seq<char>,
    as_of: Seq<char>,
    ending_balance: Seq<char>,
    matched: u64,
    unmatched: u64,
    unexplained_delta: Seq<char>,
    report_path: Option<Seq<char>>,
) -> Seq<char> {
    "reconciled:{account="@ + quoted(account) + ";as_of="@ + quoted(as_of) + ";ending="@ + quoted(ending_balance)
        + ";matched="@ + nat_str(matched as nat) + ";unmatched="@ + nat_str(unmatched as nat) + ";delta="@
        + quoted(unexplained_delta) + ";report="@ + opt_quoted(report_path) + "}"@
}

pub open spec fn manual_canon(transaction_id: u128, summary: Seq<char>) -> Seq<char> {
    "manual_edit:{tx="@ + uuid_str(transaction_id) + ";summary="@ + quoted(summary) + "}"@
}

/// Canonical text of a payload: its kind, then every field in a fixed order.
pub open spec fn payload_canon(p: PayloadView) -> Seq<char> {
    match p {
        PayloadView::AccountUpserted { account } => "account_upserted:"@ + account_canon(account),
        PayloadView::Posted { transaction } => "posted:"@ + tx_canon(transaction),
        PayloadView::Imported { batch_id, source_path, source_sha256, row_count } => imported_canon(
            batch_id, source_path, source_sha256, row_count),
        PayloadView::Normalized { transaction_id, reasons } => normalized_canon(transaction_id, reasons),
        PayloadView::Deduped { duplicate_id, survivor_id, strategy, explanation } => deduped_canon(
            duplicate_id, survivor_id, strategy, explanation),
        PayloadView::Categorized { transaction_id, category, rule_id, confidence, reasons } => categorized_canon(
            transaction_id, category, rule_id, confidence, reasons),
        PayloadView::Reconciled { account, as_of, ending_balance, matched, unmatched, unexplained_delta, report_path } =>
            reconciled_canon(account, as_of, ending_balance, matched, unmatched, unexplained_delta, report_path),
        PayloadView::ManualEdit { transaction_id, summary } => manual_canon(transaction_id, summary),
    }
}

/// The bytes an event's content hash digests.
pub open spec fn event_text(prev: Seq<char>, id: u128, at: Seq<char>, kind: EventKind, payload: PayloadView) -> Seq<char> {
    "v1\nprev="@ + prev + "\nid="@ + uuid_str(id) + "\nat="@ + at + "\nkind="@ + kind_str(kind)
        + "\npayload="@ + payload_canon(payload)
}

pub open spec fn event_hash(prev: Seq<char>, id: u128, at: Seq<char>, kind: EventKind, payload: PayloadView) -> Seq<char> {
    hex_lower(sha256_digest(vstd::utf8::encode_utf8(event_text(prev, id, at, kind, payload))))
}

fn push_u64(out: &mut String, n: u64)
    ensures
        final(out)@ == old(out)@ + nat_str(n as nat),
{
    let d = nat_str_u128(n as u128);
    push_chars(out, &d);
}

fn push_uuid(out: &mut String, v: u128)
    ensures
        final(out)@ == old(out)@ + uuid_str(v),
{
    let s = uuid_to_string(v);
    push_str(out, s.as_str());
}

fn push_account_payload(out: &mut String, account: &Account)
    ensures
        final(out)@ == old(out)@ + "account_upserted:"@ + account_canon(account@),
{
    let ghost start = out@;
    push_str(out, "account_upserted:");
    push_str(out, "{id=");
    push_quoted(out, account.id.as_str());
    push_str(out, ";type=");
    push_str(out, account_type_str(account.account_type));
    push_str(out, ";commodity=");
    push_quoted(out, account.commodity.as_str());
    push_str(out, ";name=");
    push_quoted(out, account.name.as_str());
    push_str(out, "}");
    assert(out@ =~= start + "account_upserted:"@ + account_canon(account@));
}

fn push_imported(out: &mut String, batch_id: u128, source_path: &String, source_sha256: &ContentHash, row_count: u64)
    ensures
        final(out)@ == old(out)@ + imported_canon(batch_id, source_path@, source_sha256@, row_count),
{
    let ghost start = out@;
    push_str(out, "imported:{batch=");
    push_uuid(out, batch_id);
    push_str(out, ";source=");
    push_quoted(out, source_path.as_str());
    push_str(out, ";sha256=");
    push_quoted(out, source_sha256.as_str());
    push_str(out, ";rows=");
    push_u64(out, row_count);
    push_str(out, "}");
    assert(out@ =~= start + imported_canon(batch_id, source_path@, source_sha256@, row_count));
}

fn push_normalized(out: &mut String, transaction_id: u128, reasons: &Vec<String>)
    ensures
        final(out)@ == old(out)@ + normalized_canon(transaction_id, strings_view(reasons@)),
{
    let ghost start = out@;
    push_str(out, "normalized:{tx=");
    push_uuid(out, transaction_id);
    push_str(out, ";reasons=[");
    push_tags(out, reasons);
    push_str(out, "]}");
    assert(out@ =~= start + normalized_canon(transaction_id, strings_view(reasons@)));
}

fn push_deduped(out: &mut String, duplicate_id: u128, survivor_id: u128, strategy: &String, explanation: &String)
    ensures
        final(out)@ == old(out)@ + deduped_canon(duplicate_id, survivor_id, strategy@, explanation@),
{
    let ghost start = out@;
    push_str(out, "deduped:{duplicate=");
    push_uuid(out, duplicate_id);
    push_str(out, ";survivor=");
    push_uuid(out, survivor_id);
    push_str(out, ";strategy=");
    push_quoted(out, strategy.as_str());
    push_str(out, ";explanation=");
    push_quoted(out, explanation.as_str());
    push_str(out, "}");
    assert(out@ =~= start + deduped_canon(duplicate_id, survivor_id, strategy@, explanation@));
}

fn push_categorized(out: &mut String, transaction_id: u128, category: &String, rule_id: &String, confidence: u8, reasons: &Vec<String>)
    ensures
        final(out)@ == old(out)@ + categorized_canon(transaction_id, category@, rule_id@, confidence, strings_view(reasons@)),
{
    let ghost start = out@;
    push_str(out, "categorized:{tx=");
    push_uuid(out, transaction_id);
    push_str(out, ";category=");
    push_quoted(out, category.as_str());
    push_str(out, ";rule=");
    push_quoted(out, rule_id.as_str());
    push_str(out, ";confidence=");
    push_u64(out, confidence as u64);
    push_str(out, ";reasons=[");
    push_tags(out, reasons);
    push_str(out, "]}");
    assert(out@ =~= start + categorized_canon(transaction_id, category@, rule_id@, confidence, strings_view(reasons@)));
}

fn push_reconciled(
    out: &mut String,
    account: &String,
    as_of: &String,
    ending_balance: &String,
    matched: u64,
    unmatched: u64,
    unexplained_delta: &String,
    report_path: &Option<String>,
)
    ensures
        final(out)@ == old(out)@ + reconciled_canon(account@, as_of@, ending_balance@, matched, unmatched, unexplained_delta@, opt_str(*report_path)),
{
    let ghost start = out@;
    push_str(out, "reconciled:{account=");
    push_quoted(out, account.as_str());
    push_str(out, ";as_of=");
    push_quoted(out, as_of.as_str());
    push_str(out, ";ending=");
    push_quoted(out, ending_balance.as_str());
    push_str(out, ";matched=");
    push_u64(out, matched);
    push_str(out, ";unmatched=");
    push_u64(out, unmatched);
    push_str(out, ";delta=");
    push_quoted(out, unexplained_delta.as_str());
    push_str(out, ";report=");
    push_opt_quoted(out, report_path);
    push_str(out, "}");
    assert(out@ =~= start + reconciled_canon(account@, as_of@, ending_balance@, matched, unmatched, unexplained_delta@, opt_str(*report_path)));
}

fn push_manual(out: &mut String, transaction_id: u128, summary: &String)
    ensures
        final(out)@ == old(out)@ + manual_canon(transaction_id, summary@),
{
    let ghost start = out@;
    push_str(out, "manual_edit:{tx=");
    push_uuid(out, transaction_id);
    push_str(out, ";summary=");
    push_quoted(out, summary.as_str());
    push_str(out, "}");
    assert(out@ =~= start + manual_canon(transaction_id, summary@));
}

fn push_payload(out: &mut String, p: &EventPayload)
    ensures
        final(out)@ == old(out)@ + payload_canon(p@),
{
    match p {
        EventPayload::AccountUpserted { account } => push_account_payload(out, account),
        EventPayload::Posted { transaction } => {
            let ghost start = out@;
            push_str(out, "posted:");
            push_tx(out, transaction);
            assert(out@ =~= start + payload_canon(p@));
        },
        EventPayload::Imported { batch_id, source_path, source_sha256, row_count } => push_imported(
            out, batch_id.0, source_path, source_sha256, *row_count),
        EventPayload::Normalized { transaction_id, reasons } => push_normalized(out, transaction_id.0, reasons),
        EventPayload::Deduped { duplicate_id, survivor_id, strategy, explanation } => push_deduped(
            out, duplicate_id.0, survivor_id.0, strategy, explanation),
        EventPayload::Categorized { transaction_id, category, rule_id, confidence, reasons } => push_categorized(
            out, transaction_id.0, category, rule_id, *confidence, reasons),
        EventPayload::Reconciled { account, as_of, ending_balance, matched, unmatched, unexplained_delta, report_path } =>
            push_reconciled(out, account, as_of, ending_balance, *matched, *unmatched, unexplained_delta, report_path),
        EventPayload::ManualEdit { transaction_id, summary } => push_manual(out, transaction_id.0, summary),
    }
}

#[verifier::external_body]
/// `chrono::Utc::now().to_rfc3339()`: the current time; nothing is promised of it.
fn now_rfc3339() -> (r: String) {
    chrono::Utc::now().to_rfc3339()
}

#[derive(Clone, Debug)]
/// Append-only audit event. Events are never mutated or deleted.
pub struct Event {
    pub id: u128,
    pub seq: u64,
    /// RFC 3339 timestamp.
    pub at: String,
    pub kind: EventKind,
    pub payload: EventPayload,
    /// Hash of this event's canonical text (for chain integrity).
    pub content_hash: ContentHash,
    /// Previous event hash; genesis uses zeros.
    pub prev_hash: ContentHash,
}

pub struct EventView {
    pub id: u128,
    pub seq: u64,
    pub at: Seq<char>,
    pub kind: EventKind,
    pub payload: PayloadView,
    pub content_hash: Seq<char>,
    pub prev_hash: Seq<char>,
}

impl View for Event {
    type V = EventView;

    open spec fn view(&self) -> EventView {
        EventView {
            id: self.id,
            seq: self.seq,
            at: self.at@,
            kind: self.kind,
            payload: self.payload@,
            content_hash: self.content_hash@,
            prev_hash: self.prev_hash@,
        }
    }
}

/// The hash an event's fields call for.
pub open spec fn expected_hash(e: EventView) -> Seq<char> {
    event_hash(e.prev_hash, e.id, e.at, e.kind, e.payload)
}

/// An event whose content hash is the one its fields call for.
pub open spec fn sealed(e: EventView) -> bool {
    e.content_hash == expected_hash(e)
}

fn hash_event(prev: &ContentHash, id: u128, at: &String, kind: EventKind, payload: &EventPayload) -> (r: ContentHash)
    ensures
        r@ == event_hash(prev@, id, at@, kind, payload@),
{
    let mut text = string_of(chars_of("v1\nprev=").as_slice());
    push_str(&mut text, prev.as_str());
    push_str(&mut text, "\nid=");
    push_uuid(&mut text, id);
    push_str(&mut text, "\nat=");
    push_str(&mut text, at.as_str());
    push_str(&mut text, "\nkind=");
    push_str(&mut text, event_kind_str(kind));
    push_str(&mut text, "\npayload=");
    push_payload(&mut text, payload);
    assert(text@ =~= event_text(prev@, id, at@, kind, payload@));
    ContentHash::sha256_str(text.as_str())
}

impl Event {
    /// Build a sealed event linked to `prev_hash`, with a fresh id and the
    /// current time. `seq` is assigned by the store on insert.
    pub fn seal(kind: EventKind, payload: EventPayload, prev_hash: ContentHash) -> (r: Event)
        ensures
            r.kind == kind,
            r.payload@ == payload@,
            r.prev_hash@ == prev_hash@,
            r.seq == 0,
            sealed(r@),
    {
        let id = uuid_now_v7();
        let at = now_rfc3339();
        let content_hash = hash_event(&prev_hash, id, &at, kind, &payload);
        Event { id, seq: 0, at, kind, payload, content_hash, prev_hash }
    }

    /// Recompute the content hash (used to verify chain integrity).
    pub fn expected_content_hash(&self) -> (r: ContentHash)
        ensures
            r@ == expected_hash(self@),
    {
        hash_event(&self.prev_hash, self.id, &self.at, self.kind, &self.payload)
    }
}

impl EventPayload {
    pub fn duplicate(&self) -> (r: EventPayload)
        ensures
            r@ == self@,
    {
        match self {
            EventPayload::AccountUpserted { account } => EventPayload::AccountUpserted { account: account.duplicate() },
            EventPayload::Posted { transaction } => EventPayload::Posted { transaction: transaction.duplicate() },
            EventPayload::Imported { batch_id, source_path, source_sha256, row_count } => EventPayload::Imported {
                batch_id: *batch_id,
                source_path: source_path.clone(),
                source_sha256: source_sha256.duplicate(),
                row_count: *row_count,
            },
            EventPayload::Normalized { transaction_id, reasons } => EventPayload::Normalized {
                transaction_id: *transaction_id,
                reasons: crate::posting::dup_strings(reasons),
            },
            EventPayload::Deduped { duplicate_id, survivor_id, strategy, explanation } => EventPayload::Deduped {
                duplicate_id: *duplicate_id,
                survivor_id: *survivor_id,
                strategy: strategy.clone(),
                explanation: explanation.clone(),
            },
            EventPayload::Categorized { transaction_id, category, rule_id, confidence, reasons } => EventPayload::Categorized {
                transaction_id: *transaction_id,
                category: category.clone(),
                rule_id: rule_id.clone(),
                confidence: *confidence,
                reasons: crate::posting::dup_strings(reasons),
            },
            EventPayload::Reconciled { account, as_of, ending_balance, matched, unmatched, unexplained_delta, report_path } => EventPayload::Reconciled {
                account: account.clone(),
                as_of: as_of.clone(),
                ending_balance: ending_balance.clone(),
                matched: *matched,
                unmatched: *unmatched,
                unexplained_delta: unexplained_delta.clone(),
                report_path: crate::posting::dup_opt_string(report_path),
            },
            EventPayload::ManualEdit { transaction_id, summary } => EventPayload::ManualEdit {
                transaction_id: *transaction_id,
                summary: summary.clone(),
            },
        }
    }
}

impl Event {
    pub fn duplicate(&self) -> (r: Event)
        ensures
            r@ == self@,
    {
        Event {
            id: self.id,
            seq: self.seq,
            at: self.at.clone(),
            kind: self.kind,
            payload: self.payload.duplicate(),
            content_hash: self.content_hash.duplicate(),
            prev_hash: self.prev_hash.duplicate(),
        }
    }
}

pub open spec fn events_view(v: Seq<Event>) -> Seq<EventView> {
    v.map_values(|e: Event| e@)
}

} // verus!
