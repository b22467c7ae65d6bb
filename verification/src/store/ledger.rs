//! Accounts, postings, dedupe links, categories and reconciliations.
use vstd::prelude::*;

use super::{
    apply_event, apply_event_exec, chain_ok, consistent, sound, events_upto, find_tx, find_tx_exec, lemma_find_tx_found, owned,
    recategorized, replay, tip, Store, StoreView,
};
use crate::account::{Account, AccountId, AccountView};
use crate::error::core_error_msg;
use crate::event::{sealed, Event, EventKind, EventPayload, EventView, PayloadView};
use crate::ids::{uuid_str, uuid_to_string, TransactionId};
use crate::money::{dec_str, Amount, Commodity};
use crate::reconcile::ReconcileProof;
use crate::snapshot::{txs_view, LedgerSnapshot};
use crate::text::{push_str, str_eq, str_lt, string_lt};
use crate::transaction::{Transaction, TxView};
use crate::verify::{account_balance, balance_fold, balanced_ok, ledger_hash_of, total_postings, verify_error_ok, verify_ledger, verify_transaction, VerifyReport};

verus! {

/// The first account with id `id`.
pub open spec fn find_account(accts: Seq<AccountView>, id: Seq<char>) -> Option<int>
    decreases accts.len(),
{
    if accts.len() == 0 {
        None
    } else if accts[0].id == id {
        Some(0)
    } else {
        match find_account(accts.drop_first(), id) {
            Some(j) => Some(j + 1),
            None => None,
        }
    }
}

/// The accounts after an upsert: the account replaces the one with its id, or is added.
pub open spec fn upsert(accts: Seq<AccountView>, a: AccountView) -> Seq<AccountView> {
    match find_account(accts, a.id) {
        Some(p) => accts.update(p, a),
        None => accts.push(a),
    }
}

/// The order a snapshot lists transactions in: by date text, then id text.
pub open spec fn row_lt(a: TxView, b: TxView) -> bool {
    str_lt(a.date.text(), b.date.text()) || (a.date.text() == b.date.text() && str_lt(uuid_str(a.id.0), uuid_str(b.id.0)))
}

pub open spec fn row_pos(s: Seq<TxView>, x: TxView) -> int
    decreases s.len(),
{
    if s.len() == 0 {
        0
    } else if row_lt(x, s[0]) {
        0
    } else {
        1 + row_pos(s.drop_first(), x)
    }
}

/// The stored transactions in snapshot order.
pub open spec fn by_date_id(s: Seq<TxView>) -> Seq<TxView>
    decreases s.len(),
{
    if s.len() == 0 {
        s
    } else {
        let p = by_date_id(s.drop_last());
        p.insert(row_pos(p, s.last()), s.last())
    }
}

/// An operation that appended `e` and changed the transactions as `e` says.
pub open spec fn logged(old: StoreView, new: StoreView, e: EventView) -> bool {
    &&& new.events == old.events.push(e)
    &&& new.txs == apply_event(old.txs, e)
    &&& e.prev_hash == tip(old.events)
    &&& e.seq == old.events.len() + 1
    &&& sealed(e)
}

/// Appending an event and applying it keeps the log valid and the stored
/// transactions equal to its replay.
pub proof fn law_logged_step_keeps_store_valid(old: StoreView, new: StoreView, e: EventView)
    requires
        logged(old, new, e),
        chain_ok(old.events),
        consistent(old),
    ensures
        chain_ok(new.events),
        consistent(new),
{
    let s = new.events;
    assert(s.drop_last() =~= old.events);
    assert forall|i: int| 0 <= i < s.len() implies (#[trigger] s[i]).prev_hash == tip(s.take(i)) && sealed(s[i])
        && s[i].seq == i + 1 by {
        if i < old.events.len() {
            assert(s.take(i) =~= old.events.take(i));
            assert(s[i] == old.events[i]);
        } else {
            assert(s.take(i) =~= old.events);
        }
    }
}

/// Appending an event keeps the log valid.
pub proof fn law_logged_step_keeps_store_valid_chain(old: StoreView, new: StoreView, e: EventView)
    requires
        logged(old, new, e),
        chain_ok(old.events),
    ensures
        chain_ok(new.events),
{
    let s = new.events;
    assert forall|i: int| 0 <= i < s.len() implies (#[trigger] s[i]).prev_hash == tip(s.take(i)) && sealed(s[i])
        && s[i].seq == i + 1 by {
        if i < old.events.len() {
            assert(s.take(i) =~= old.events.take(i));
            assert(s[i] == old.events[i]);
        } else {
            assert(s.take(i) =~= old.events);
        }
    }
}

/// Applying the appended event to the stored transactions keeps them equal to the replay.
pub proof fn law_logged_step_keeps_consistent(old: StoreView, new: StoreView, e: EventView)
    requires
        logged(old, new, e),
        consistent(old),
    ensures
        consistent(new),
{
    assert(new.events.drop_last() =~= old.events);
}

/// Linking a duplicate or tagging a category never deletes a transaction and
/// never rewrites its postings: only the duplicate link or the tags change.
pub proof fn law_links_and_tags_keep_postings(old: StoreView, new: StoreView, e: EventView)
    requires
        logged(old, new, e),
        e.payload is Deduped || e.payload is Categorized,
    ensures
        new.txs.len() == old.txs.len(),
        forall|i: int|
            0 <= i < old.txs.len() ==> (#[trigger] new.txs[i]).id == old.txs[i].id && new.txs[i].date == old.txs[i].date
                && new.txs[i].payee == old.txs[i].payee && new.txs[i].postings == old.txs[i].postings,
{
    let target = match e.payload {
        PayloadView::Deduped { duplicate_id, .. } => find_tx(old.txs, TransactionId(duplicate_id)),
        PayloadView::Categorized { transaction_id, .. } => find_tx(old.txs, TransactionId(transaction_id)),
        _ => None,
    };
    if let Some(p) = target {
        match e.payload {
            PayloadView::Deduped { duplicate_id, .. } => lemma_find_tx_found(old.txs, TransactionId(duplicate_id)),
            PayloadView::Categorized { transaction_id, .. } => lemma_find_tx_found(old.txs, TransactionId(transaction_id)),
            _ => {},
        }
        assert forall|i: int| 0 <= i < old.txs.len() implies (#[trigger] new.txs[i]).id == old.txs[i].id
            && new.txs[i].date == old.txs[i].date && new.txs[i].payee == old.txs[i].payee
            && new.txs[i].postings == old.txs[i].postings by {
            if i != p {
                assert(new.txs[i] == old.txs[i]);
            }
        }
    } else {
        assert(new.txs == old.txs);
    }
}

/// `txs` ordered by date and then id (a stable insertion sort).
fn sorted_by_date_id(txs: &Vec<Transaction>) -> (r: Vec<Transaction>)
    ensures
        txs_view(r@) == by_date_id(txs_view(txs@)),
{
    let ghost sv = txs_view(txs@);
    let mut out: Vec<Transaction> = Vec::new();
    let mut i: usize = 0;
    assert(sv.take(0) =~= Seq::<TxView>::empty());
    while i < txs.len()
        invariant
            i <= txs.len(),
            sv == txs_view(txs@),
            txs_view(out@) == by_date_id(sv.take(i as int)),
        decreases txs.len() - i,
    {
        let t = &txs[i];
        assert(sv.take(i + 1).drop_last() =~= sv.take(i as int));
        assert(sv.take(i + 1).last() == t@);
        let ghost ov = txs_view(out@);
        let mut p: usize = 0;
        assert(ov.skip(0) =~= ov);
        while p < out.len() && !tx_row_lt(t, &out[p])
            invariant
                p <= out.len(),
                ov == txs_view(out@),
                row_pos(ov, t@) == p + row_pos(ov.skip(p as int), t@),
            decreases out.len() - p,
        {
            assert(ov.skip(p as int)[0] == out@[p as int]@);
            assert(ov.skip(p as int).drop_first() =~= ov.skip(p + 1));
            p = p + 1;
        }
        proof {
            if p == out.len() {
                assert(ov.skip(p as int) =~= Seq::<TxView>::empty());
            } else {
                assert(ov.skip(p as int)[0] == out@[p as int]@);
            }
        }
        out.insert(p, t.duplicate());
        assert(txs_view(out@) =~= ov.insert(p as int, t@));
        i = i + 1;
    }
    assert(sv.take(txs.len() as int) =~= sv);
    out
}

fn tx_row_lt(a: &Transaction, b: &Transaction) -> (r: bool)
    ensures
        r == row_lt(a@, b@),
{
    let da = a.date.to_string();
    let db = b.date.to_string();
    if string_lt(&da, &db) {
        return true;
    }
    if !str_eq(da.as_str(), db.as_str()) {
        return false;
    }
    let x = uuid_to_string(a.id.0);
    let y = uuid_to_string(b.id.0);
    string_lt(&x, &y)
}

impl Store {
    /// Insert or replace an account and append an `AccountUpserted` event.
    pub fn upsert_account(&mut self, account: Account) -> (r: Event)
        requires
            old(self)@.events.len() < u64::MAX,
        ensures
            sound(old(self)@) ==> sound(final(self)@),
            final(self)@.accounts == upsert(old(self)@.accounts, account@),
            logged(old(self)@, final(self)@, r@),
            r.kind == EventKind::AccountUpserted,
            r@.payload == (PayloadView::AccountUpserted { account: account@ }),
            final(self)@.txs == old(self)@.txs,
            final(self)@.batches == old(self)@.batches,
            final(self)@.rows == old(self)@.rows,
    {
        let ghost av = self@.accounts;
        let mut p: usize = 0;
        assert(av.skip(0) =~= av);
        while p < self.accounts.len() && !str_eq(self.accounts[p].id.as_str(), account.id.as_str())
            invariant
                p <= self.accounts.len(),
                av == old(self)@.accounts,
                av == super::accounts_view(self.accounts@),
                self@ == old(self)@,
                find_account(av, account@.id) == match find_account(av.skip(p as int), account@.id) {
                    Some(j) => Some(j + p),
                    None => None,
                },
            decreases self.accounts.len() - p,
        {
            assert(av.skip(p as int)[0] == self.accounts@[p as int]@);
            assert(av.skip(p as int).drop_first() =~= av.skip(p + 1));
            p = p + 1;
        }
        proof {
            if p == self.accounts.len() {
                assert(av.skip(p as int) =~= Seq::<AccountView>::empty());
            } else {
                assert(av.skip(p as int)[0] == self.accounts@[p as int]@);
            }
        }
        let copy = account.duplicate();
        assert(copy@ == account@);
        let ev = self.push_event(EventKind::AccountUpserted, EventPayload::AccountUpserted { account });
        if p < self.accounts.len() {
            self.accounts.set(p, copy);
        } else {
            self.accounts.push(copy);
        }
        assert(self@.accounts =~= upsert(old(self)@.accounts, copy@));
        proof {
            if sound(old(self)@) {
                law_logged_step_keeps_store_valid(old(self)@, self@, ev@);
            }
        }
        ev
    }

    /// The account with id `id`, if one is stored.
    pub fn get_account(&self, id: &AccountId) -> (r: Option<Account>)
        ensures
            match find_account(self@.accounts, id@) {
                Some(p) => r matches Some(a) && a@ == self@.accounts[p],
                None => r is None,
            },
    {
        let ghost av = self@.accounts;
        let mut p: usize = 0;
        assert(av.skip(0) =~= av);
        while p < self.accounts.len()
            invariant
                p <= self.accounts.len(),
                av == self@.accounts,
                av == super::accounts_view(self.accounts@),
                find_account(av, id@) == match find_account(av.skip(p as int), id@) {
                    Some(j) => Some(j + p),
                    None => None,
                },
            decreases self.accounts.len() - p,
        {
            assert(av.skip(p as int)[0] == self.accounts@[p as int]@);
            if str_eq(self.accounts[p].id.as_str(), id.as_str()) {
                let a = self.accounts[p].duplicate();
                assert(a@ == av[p as int]);
                return Some(a);
            }
            assert(av.skip(p as int).drop_first() =~= av.skip(p + 1));
            p = p + 1;
        }
        assert(av.skip(p as int) =~= Seq::<AccountView>::empty());
        None
    }

    /// Insert a balanced transaction and append a `Posted` event.
    pub fn post_transaction(&mut self, transaction: Transaction) -> (r: Result<Event, String>)
        requires
            old(self)@.events.len() < u64::MAX,
        ensures
            sound(old(self)@) ==> sound(final(self)@),
            r is Ok <==> balanced_ok(transaction@.postings) && find_tx(old(self)@.txs, transaction.id) is None,
            r matches Ok(e) ==> logged(old(self)@, final(self)@, e@) && e.kind == EventKind::Posted
                && e@.payload == (PayloadView::Posted { transaction: transaction@ })
                && final(self)@.txs == old(self)@.txs.push(transaction@),
            r matches Err(m) ==> final(self)@ == old(self)@ && (!balanced_ok(transaction@.postings) ==> exists|e: crate::error::CoreError|
                verify_error_ok(e, transaction.id, transaction@.postings) && m@ == core_error_msg(e)),
            r matches Err(m) ==> (balanced_ok(transaction@.postings) ==> m@ == "UNIQUE constraint failed: transactions.id"@),
            final(self)@.accounts == old(self)@.accounts,
            final(self)@.batches == old(self)@.batches,
            final(self)@.rows == old(self)@.rows,
    {
        match verify_transaction(&transaction) {
            Ok(()) => {},
            Err(e) => {
                return Err(e.message());
            },
        }
        if find_tx_exec(&self.transactions, transaction.id).is_some() {
            return Err(owned("UNIQUE constraint failed: transactions.id"));
        }
        let ghost tv = transaction@;
        let ev = self.push_event(EventKind::Posted, EventPayload::Posted { transaction });
        apply_event_exec(&mut self.transactions, &ev);
        assert(self@.txs =~= apply_event(old(self)@.txs, ev@));
        proof {
            if sound(old(self)@) {
                law_logged_step_keeps_store_valid(old(self)@, self@, ev@);
            }
        }
        Ok(ev)
    }

    /// The stored transactions, ordered by date and then id.
    pub fn load_snapshot(&self) -> (r: LedgerSnapshot)
        ensures
            r@ == by_date_id(self@.txs),
    {
        LedgerSnapshot { transactions: sorted_by_date_id(&self.transactions) }
    }

    /// Link `duplicate_id` to `survivor_id` (never deleting) and append a `Deduped` event.
    pub fn mark_duplicate(&mut self, duplicate_id: TransactionId, survivor_id: TransactionId, strategy: &str, explanation: &str) -> (r: Result<Event, String>)
        requires
            old(self)@.events.len() < u64::MAX,
        ensures
            sound(old(self)@) ==> sound(final(self)@),
            r is Ok <==> duplicate_id != survivor_id && (find_tx(old(self)@.txs, duplicate_id) matches Some(p)
                && old(self)@.txs[p].duplicate_of is None) && find_tx(old(self)@.txs, survivor_id) is Some,
            r matches Ok(e) ==> logged(old(self)@, final(self)@, e@) && e.kind == EventKind::Deduped
                && e@.payload == (PayloadView::Deduped {
                    duplicate_id: duplicate_id.0,
                    survivor_id: survivor_id.0,
                    strategy: strategy@,
                    explanation: explanation@,
                }),
            r matches Err(m) ==> final(self)@ == old(self)@ && m@ == (if duplicate_id == survivor_id {
                "duplicate_id must differ from survivor_id"@
            } else if find_tx(old(self)@.txs, duplicate_id) is None {
                "transaction "@ + uuid_str(duplicate_id.0) + " not found"@
            } else if old(self)@.txs[find_tx(old(self)@.txs, duplicate_id)->0].duplicate_of is Some {
                "transaction "@ + uuid_str(duplicate_id.0) + " is already linked as a duplicate"@
            } else {
                "survivor "@ + uuid_str(survivor_id.0) + " not found"@
            }),
            final(self)@.accounts == old(self)@.accounts,
            final(self)@.batches == old(self)@.batches,
            final(self)@.rows == old(self)@.rows,
    {
        if duplicate_id.0 == survivor_id.0 {
            return Err(owned("duplicate_id must differ from survivor_id"));
        }
        match find_tx_exec(&self.transactions, duplicate_id) {
            None => {
                let mut m = owned("transaction ");
                push_str(&mut m, uuid_to_string(duplicate_id.0).as_str());
                push_str(&mut m, " not found");
                return Err(m);
            },
            Some(p) => {
                assert(self@.txs[p as int] == self.transactions@[p as int]@);
                if self.transactions[p].duplicate_of.is_some() {
                    let mut m = owned("transaction ");
                    push_str(&mut m, uuid_to_string(duplicate_id.0).as_str());
                    push_str(&mut m, " is already linked as a duplicate");
                    return Err(m);
                }
            },
        }
        if find_tx_exec(&self.transactions, survivor_id).is_none() {
            let mut m = owned("survivor ");
            push_str(&mut m, uuid_to_string(survivor_id.0).as_str());
            push_str(&mut m, " not found");
            return Err(m);
        }
        let ev = self.push_event(
            EventKind::Deduped,
            EventPayload::Deduped {
                duplicate_id,
                survivor_id,
                strategy: owned(strategy),
                explanation: owned(explanation),
            },
        );
        apply_event_exec(&mut self.transactions, &ev);
        proof {
            if sound(old(self)@) {
                law_logged_step_keeps_store_valid(old(self)@, self@, ev@);
            }
        }
        Ok(ev)
    }

    /// Replace the category tag of a transaction and append a `Categorized` event.
    pub fn apply_category(
        &mut self,
        transaction_id: TransactionId,
        category: &str,
        rule_id: &str,
        confidence: u8,
        reasons: Vec<String>,
    ) -> (r: Result<Event, String>)
        requires
            old(self)@.events.len() < u64::MAX,
        ensures
            sound(old(self)@) ==> sound(final(self)@),
            r is Ok <==> find_tx(old(self)@.txs, transaction_id) is Some,
            r matches Ok(e) ==> logged(old(self)@, final(self)@, e@) && e.kind == EventKind::Categorized
                && e@.payload == (PayloadView::Categorized {
                    transaction_id: transaction_id.0,
                    category: category@,
                    rule_id: rule_id@,
                    confidence,
                    reasons: crate::transaction::strings_view(reasons@),
                }),
            r matches Err(m) ==> final(self)@ == old(self)@ && m@ == "Query returned no rows"@,
            final(self)@.accounts == old(self)@.accounts,
            final(self)@.batches == old(self)@.batches,
            final(self)@.rows == old(self)@.rows,
    {
        if find_tx_exec(&self.transactions, transaction_id).is_none() {
            return Err(owned("Query returned no rows"));
        }
        let ev = self.push_event(
            EventKind::Categorized,
            EventPayload::Categorized {
                transaction_id,
                category: owned(category),
                rule_id: owned(rule_id),
                confidence,
                reasons,
            },
        );
        apply_event_exec(&mut self.transactions, &ev);
        proof {
            if sound(old(self)@) {
                law_logged_step_keeps_store_valid(old(self)@, self@, ev@);
            }
        }
        Ok(ev)
    }

    /// Append a `Reconciled` event recording a reconciliation proof.
    pub fn record_reconcile(&mut self, proof: &ReconcileProof, report_path: Option<String>) -> (r: Event)
        requires
            old(self)@.events.len() < u64::MAX,
        ensures
            sound(old(self)@) ==> sound(final(self)@),
            logged(old(self)@, final(self)@, r@),
            r.kind == EventKind::Reconciled,
            r@.payload == (PayloadView::Reconciled {
                account: proof.account@,
                as_of: proof.as_of.text(),
                ending_balance: dec_str(proof.stated_ending@),
                matched: proof.matched@.len() as u64,
                unmatched: (proof.skipped_duplicates@.len() + proof.after_as_of@.len()) as u64,
                unexplained_delta: dec_str(proof.unexplained_delta@),
                report_path: crate::posting::opt_str(report_path),
            }),
            final(self)@.txs == old(self)@.txs,
            final(self)@.accounts == old(self)@.accounts,
            final(self)@.batches == old(self)@.batches,
            final(self)@.rows == old(self)@.rows,
    {
        let unmatched = (proof.skipped_duplicates.len() as u128 + proof.after_as_of.len() as u128) as u64;
        let ev = self.push_event(
            EventKind::Reconciled,
            EventPayload::Reconciled {
                account: proof.account.clone(),
                as_of: proof.as_of.to_string(),
                ending_balance: proof.stated_ending.to_string(),
                matched: proof.matched.len() as u64,
                unmatched,
                unexplained_delta: proof.unexplained_delta.to_string(),
                report_path,
            },
        );
        proof {
            if sound(old(self)@) {
                law_logged_step_keeps_store_valid(old(self)@, self@, ev@);
            }
        }
        ev
    }

    /// The balance of an account in a commodity over the snapshot (duplicates skipped).
    pub fn balance_of(&self, account: &AccountId, commodity: &Commodity) -> (r: Amount)
        ensures
            r@ == balance_fold(by_date_id(self@.txs), account@, commodity@),
    {
        let snapshot = self.load_snapshot();
        account_balance(&snapshot, account, commodity)
    }
}

proof fn lemma_upto_max(events: Seq<EventView>)
    ensures
        events_upto(events, u64::MAX) == events,
    decreases events.len(),
{
    if events.len() > 0 {
        lemma_upto_max(events.drop_last());
        assert(events.drop_last().push(events.last()) =~= events);
    }
}

/// Replaying the whole log gives back exactly the stored transactions (in the
/// order they were posted) for a store whose every change went through the log.
pub proof fn law_replay_matches_table(v: StoreView)
    requires
        consistent(v),
    ensures
        replay(events_upto(v.events, u64::MAX)) == v.txs,
{
    lemma_upto_max(v.events);
}

fn postings_fit(s: &LedgerSnapshot) -> (r: bool)
    ensures
        r == (total_postings(s@) <= usize::MAX),
{
    let ghost tv = s@;
    let mut n: u128 = 0;
    let mut i: usize = 0;
    assert(tv.take(0) =~= Seq::<TxView>::empty());
    while i < s.transactions.len()
        invariant
            i <= s.transactions.len(),
            tv == s@,
            n == total_postings(tv.take(i as int)),
            n <= i * 0x1_0000_0000_0000_0000,
        decreases s.transactions.len() - i,
    {
        assert(tv.take(i + 1).drop_last() =~= tv.take(i as int));
        assert(tv.take(i + 1).last() == s.transactions@[i as int]@);
        n = n + s.transactions[i].postings.len() as u128;
        i = i + 1;
    }
    assert(tv.take(s.transactions.len() as int) =~= tv);
    n <= usize::MAX as u128
}

impl Store {
    /// The materialized snapshot and the full replay must share the same
    /// ledger hash; both are compared in snapshot order (date, then id).
    pub fn assert_replay_matches_materialized(&self) -> (r: Result<(VerifyReport, VerifyReport), String>)
        ensures
            r matches Ok((a, b)) ==> a.ledger_hash@ == ledger_hash_of(by_date_id(self@.txs))
                && b.ledger_hash@ == ledger_hash_of(by_date_id(replay(events_upto(self@.events, u64::MAX))))
                && a.ledger_hash@ == b.ledger_hash@ && a.transaction_count == self@.txs.len(),
            (total_postings(by_date_id(self@.txs)) <= usize::MAX && total_postings(by_date_id(replay(events_upto(self@.events, u64::MAX)))) <= usize::MAX)
                ==> (r is Ok <==> ledger_hash_of(by_date_id(self@.txs)) == ledger_hash_of(by_date_id(replay(events_upto(self@.events, u64::MAX))))),
            consistent(self@) && total_postings(by_date_id(self@.txs)) <= usize::MAX ==> r is Ok,
    {
        let materialized = self.load_snapshot();
        let replayed = LedgerSnapshot { transactions: sorted_by_date_id(&self.replay_all().transactions) };
        proof {
            if consistent(self@) {
                law_replay_matches_table(self@);
            }
        }
        if !postings_fit(&materialized) || !postings_fit(&replayed) {
            return Err(owned("posting count exceeds the address space"));
        }
        proof {
            lemma_by_date_id_len(self@.txs);
        }
        let a = verify_ledger(&materialized);
        let b = verify_ledger(&replayed);
        if !a.ledger_hash.same(&b.ledger_hash) {
            let mut m = owned("replay hash mismatch: materialized=");
            push_str(&mut m, a.ledger_hash.as_str());
            push_str(&mut m, " replayed=");
            push_str(&mut m, b.ledger_hash.as_str());
            return Err(m);
        }
        Ok((a, b))
    }
}

proof fn lemma_row_pos_bound(s: Seq<TxView>, x: TxView)
    ensures
        0 <= row_pos(s, x) <= s.len(),
    decreases s.len(),
{
    if s.len() > 0 && !row_lt(x, s[0]) {
        lemma_row_pos_bound(s.drop_first(), x);
    }
}

proof fn lemma_by_date_id_len(s: Seq<TxView>)
    ensures
        by_date_id(s).len() == s.len(),
    decreases s.len(),
{
    if s.len() > 0 {
        lemma_by_date_id_len(s.drop_last());
        lemma_row_pos_bound(by_date_id(s.drop_last()), s.last());
    }
}

} // verus!
