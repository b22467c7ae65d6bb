//! Import batches: idempotent on (adapter, source hash, account).
use vstd::prelude::*;

use super::ledger::{find_account, logged, upsert};
use super::rows::{row_of_spec, rows_view, specs_view, RowSpecView, StatementRow, StatementRowSpec};
use super::{chain_ok, consistent, sound, find_tx, find_tx_exec, owned, Store, StoreView};
use crate::account::{Account, AccountView};
use crate::error::core_error_msg;
use crate::event::{EventKind, EventPayload, PayloadView};
use crate::hash::ContentHash;
use crate::ids::ImportBatchId;
use crate::snapshot::txs_view;
use crate::text::str_eq;
use crate::transaction::{Transaction, TxView};
use crate::verify::{balanced_ok, verify_error_ok, verify_transaction};

verus! {

#[derive(Clone, Debug)]
pub struct ImportBatchSpec {
    pub id: ImportBatchId,
    pub adapter: String,
    pub account_id: String,
    pub source_path: String,
    pub source_sha256: ContentHash,
    /// RFC 3339 timestamp of the import.
    pub imported_at: String,
    pub row_count: u64,
}

pub struct BatchView {
    pub id: ImportBatchId,
    pub adapter: Seq<char>,
    pub account_id: Seq<char>,
    pub source_path: Seq<char>,
    pub source_sha256: Seq<char>,
    pub imported_at: Seq<char>,
    pub row_count: u64,
}

impl View for ImportBatchSpec {
    type V = BatchView;

    open spec fn view(&self) -> BatchView {
        BatchView {
            id: self.id,
            adapter: self.adapter@,
            account_id: self.account_id@,
            source_path: self.source_path@,
            source_sha256: self.source_sha256@,
            imported_at: self.imported_at@,
            row_count: self.row_count,
        }
    }
}

pub open spec fn batches_view(v: Seq<ImportBatchSpec>) -> Seq<BatchView> {
    v.map_values(|b: ImportBatchSpec| b@)
}

impl ImportBatchSpec {
    pub fn duplicate(&self) -> (r: ImportBatchSpec)
        ensures
            r@ == self@,
    {
        ImportBatchSpec {
            id: self.id,
            adapter: self.adapter.clone(),
            account_id: self.account_id.clone(),
            source_path: self.source_path.clone(),
            source_sha256: self.source_sha256.duplicate(),
            imported_at: self.imported_at.clone(),
            row_count: self.row_count,
        }
    }
}

#[derive(Clone, Debug)]
pub enum ImportOutcome {
    Applied { batch_id: ImportBatchId, posted: u64, skipped_existing: u64, last_seq: u64 },
    Duplicate { batch_id: ImportBatchId },
}

/// The batch already imported from the same source bytes by the same adapter for the same account.
pub open spec fn find_batch(bs: Seq<BatchView>, adapter: Seq<char>, sha: Seq<char>, account: Seq<char>) -> Option<int>
    decreases bs.len(),
{
    if bs.len() == 0 {
        None
    } else if bs[0].adapter == adapter && bs[0].source_sha256 == sha && bs[0].account_id == account {
        Some(0)
    } else {
        match find_batch(bs.drop_first(), adapter, sha, account) {
            Some(j) => Some(j + 1),
            None => None,
        }
    }
}

pub open spec fn has_batch_id(bs: Seq<BatchView>, id: ImportBatchId) -> bool {
    exists|i: int| 0 <= i < bs.len() && (#[trigger] bs[i]).id == id
}

/// The accounts of `accts` an import adds: those whose id is not yet stored
/// (nor added earlier in the same list).
pub open spec fn new_accounts(existing: Seq<AccountView>, accts: Seq<AccountView>) -> Seq<AccountView>
    decreases accts.len(),
{
    if accts.len() == 0 {
        Seq::empty()
    } else {
        let prev = new_accounts(existing, accts.drop_last());
        if find_account(existing + prev, accts.last().id) is None {
            prev.push(accts.last())
        } else {
            prev
        }
    }
}

/// The transactions of `txs` an import posts: those whose id is not yet stored
/// (nor posted earlier in the same list).
pub open spec fn new_txs(existing: Seq<TxView>, txs: Seq<TxView>) -> Seq<TxView>
    decreases txs.len(),
{
    if txs.len() == 0 {
        Seq::empty()
    } else {
        let prev = new_txs(existing, txs.drop_last());
        if find_tx(existing + prev, txs.last().id) is None {
            prev.push(txs.last())
        } else {
            prev
        }
    }
}

/// The first transaction that does not balance.
pub open spec fn first_unbalanced(txs: Seq<TxView>) -> Option<int>
    decreases txs.len(),
{
    if txs.len() == 0 {
        None
    } else if !balanced_ok(txs[0].postings) {
        Some(0)
    } else {
        match first_unbalanced(txs.drop_first()) {
            Some(j) => Some(j + 1),
            None => None,
        }
    }
}

pub open spec fn accts_view(v: Seq<Account>) -> Seq<AccountView> {
    v.map_values(|a: Account| a@)
}

impl Store {
    pub fn duplicate(&self) -> (r: Store)
        ensures
            r@ == self@,
    {
        let mut accounts: Vec<Account> = Vec::new();
        let mut i: usize = 0;
        while i < self.accounts.len()
            invariant
                i <= self.accounts.len(),
                accts_view(accounts@) == accts_view(self.accounts@).take(i as int),
            decreases self.accounts.len() - i,
        {
            let a = self.accounts[i].duplicate();
            let ghost prev = accounts@;
            accounts.push(a);
            assert(accts_view(accounts@) =~= accts_view(prev).push(self.accounts@[i as int]@));
            assert(accts_view(accounts@) =~= accts_view(self.accounts@).take(i + 1));
            i = i + 1;
        }
        assert(accts_view(self.accounts@).take(self.accounts.len() as int) =~= accts_view(self.accounts@));
        let mut events: Vec<crate::event::Event> = Vec::new();
        let mut j: usize = 0;
        while j < self.events.len()
            invariant
                j <= self.events.len(),
                crate::event::events_view(events@) == crate::event::events_view(self.events@).take(j as int),
            decreases self.events.len() - j,
        {
            let e = self.events[j].duplicate();
            let ghost prev = events@;
            events.push(e);
            assert(crate::event::events_view(events@) =~= crate::event::events_view(prev).push(self.events@[j as int]@));
            assert(crate::event::events_view(events@) =~= crate::event::events_view(self.events@).take(j + 1));
            j = j + 1;
        }
        assert(crate::event::events_view(self.events@).take(self.events.len() as int) =~= crate::event::events_view(self.events@));
        let mut batches: Vec<ImportBatchSpec> = Vec::new();
        let mut k: usize = 0;
        while k < self.batches.len()
            invariant
                k <= self.batches.len(),
                batches_view(batches@) == batches_view(self.batches@).take(k as int),
            decreases self.batches.len() - k,
        {
            let b = self.batches[k].duplicate();
            let ghost prev = batches@;
            batches.push(b);
            assert(batches_view(batches@) =~= batches_view(prev).push(self.batches@[k as int]@));
            assert(batches_view(batches@) =~= batches_view(self.batches@).take(k + 1));
            k = k + 1;
        }
        assert(batches_view(self.batches@).take(self.batches.len() as int) =~= batches_view(self.batches@));
        let mut rows: Vec<StatementRow> = Vec::new();
        let mut q: usize = 0;
        while q < self.rows.len()
            invariant
                q <= self.rows.len(),
                rows_view(rows@) == rows_view(self.rows@).take(q as int),
            decreases self.rows.len() - q,
        {
            let r = self.rows[q].duplicate();
            let ghost prev = rows@;
            rows.push(r);
            assert(rows_view(rows@) =~= rows_view(prev).push(self.rows@[q as int]@));
            assert(rows_view(rows@) =~= rows_view(self.rows@).take(q + 1));
            q = q + 1;
        }
        assert(rows_view(self.rows@).take(self.rows.len() as int) =~= rows_view(self.rows@));
        let txs = crate::snapshot::dup_txs(&self.transactions);
        let r = Store { accounts, transactions: txs, events, batches, rows };
        assert(r@.accounts =~= self@.accounts);
        r
    }

    /// The batch already imported for (adapter, source hash, account), if any.
    pub fn find_import_batch(&self, adapter: &str, source_sha256: &ContentHash, account_id: &str) -> (r: Option<ImportBatchId>)
        ensures
            match find_batch(self@.batches, adapter@, source_sha256@, account_id@) {
                Some(p) => r == Some(self@.batches[p].id),
                None => r is None,
            },
    {
        let ghost bv = self@.batches;
        let mut p: usize = 0;
        assert(bv.skip(0) =~= bv);
        while p < self.batches.len()
            invariant
                p <= self.batches.len(),
                bv == self@.batches,
                bv == batches_view(self.batches@),
                find_batch(bv, adapter@, source_sha256@, account_id@) == match find_batch(bv.skip(p as int), adapter@, source_sha256@, account_id@) {
                    Some(j) => Some(j + p),
                    None => None,
                },
            decreases self.batches.len() - p,
        {
            let b = &self.batches[p];
            assert(bv.skip(p as int)[0] == b@);
            if str_eq(b.adapter.as_str(), adapter) && b.source_sha256.same(source_sha256) && str_eq(b.account_id.as_str(), account_id) {
                return Some(b.id);
            }
            assert(bv.skip(p as int).drop_first() =~= bv.skip(p + 1));
            p = p + 1;
        }
        assert(bv.skip(p as int) =~= Seq::<BatchView>::empty());
        None
    }
}

/// What an applied import leaves: the new accounts, the batch, its rows and
/// the new transactions added in order.
pub open spec fn import_applied(old: StoreView, new: StoreView, spec: BatchView, accounts: Seq<AccountView>, txs: Seq<TxView>, rows: Seq<RowSpecView>) -> bool {
    &&& new.accounts == old.accounts + new_accounts(old.accounts, accounts)
    &&& new.txs == old.txs + new_txs(old.txs, txs)
    &&& new.batches == old.batches.push(spec)
    &&& new.rows == old.rows + super::rows::rows_of_specs((old.rows.len() + 1) as int, spec.id, spec.adapter, spec.account_id, rows)
    &&& new.events.len() == old.events.len() + new_accounts(old.accounts, accounts).len() + 1 + new_txs(old.txs, txs).len()
    &&& (chain_ok(old.events) ==> chain_ok(new.events))
    &&& (consistent(old) ==> consistent(new))
}

proof fn lemma_new_txs_len(existing: Seq<TxView>, txs: Seq<TxView>)
    ensures
        new_txs(existing, txs).len() <= txs.len(),
    decreases txs.len(),
{
    if txs.len() > 0 {
        lemma_new_txs_len(existing, txs.drop_last());
    }
}

proof fn lemma_new_accounts_len(existing: Seq<AccountView>, accts: Seq<AccountView>)
    ensures
        new_accounts(existing, accts).len() <= accts.len(),
    decreases accts.len(),
{
    if accts.len() > 0 {
        lemma_new_accounts_len(existing, accts.drop_last());
    }
}

impl Store {
    fn has_batch_id_exec(&self, id: ImportBatchId) -> (r: bool)
        ensures
            r == has_batch_id(self@.batches, id),
    {
        let mut i: usize = 0;
        while i < self.batches.len()
            invariant
                i <= self.batches.len(),
                forall|j: int| 0 <= j < i ==> (#[trigger] self@.batches[j]).id != id,
            decreases self.batches.len() - i,
        {
            assert(self@.batches[i as int] == self.batches@[i as int]@);
            if self.batches[i].id.0 == id.0 {
                return true;
            }
            i = i + 1;
        }
        false
    }

    fn add_accounts(&mut self, accounts: &Vec<Account>)
        requires
            old(self)@.events.len() + accounts.len() < u64::MAX,
        ensures
            final(self)@.accounts == old(self)@.accounts + new_accounts(old(self)@.accounts, accts_view(accounts@)),
            final(self)@.txs == old(self)@.txs,
            final(self)@.batches == old(self)@.batches,
            final(self)@.rows == old(self)@.rows,
            final(self)@.events.len() == old(self)@.events.len() + new_accounts(old(self)@.accounts, accts_view(accounts@)).len(),
            chain_ok(old(self)@.events) ==> chain_ok(final(self)@.events),
            consistent(old(self)@) ==> consistent(final(self)@),
    {
        let ghost av = accts_view(accounts@);
        let ghost o = self@;
        let mut i: usize = 0;
        assert(av.take(0) =~= Seq::<AccountView>::empty());
        assert(o.accounts + new_accounts(o.accounts, av.take(0)) =~= o.accounts);
        while i < accounts.len()
            invariant
                i <= accounts.len(),
                av == accts_view(accounts@),
                self@.accounts == o.accounts + new_accounts(o.accounts, av.take(i as int)),
                self@.txs == o.txs,
                self@.batches == o.batches,
                self@.rows == o.rows,
                self@.events.len() == o.events.len() + new_accounts(o.accounts, av.take(i as int)).len(),
                new_accounts(o.accounts, av.take(i as int)).len() <= i,
                o.events.len() + accounts.len() < u64::MAX,
                chain_ok(o.events) ==> chain_ok(self@.events),
                consistent(o) ==> consistent(self@),
            decreases accounts.len() - i,
        {
            let a = &accounts[i];
            assert(av.take(i + 1).drop_last() =~= av.take(i as int));
            assert(av.take(i + 1).last() == a@);
            if self.get_account(&a.id).is_none() {
                let ghost before = self@;
                let ev = self.upsert_account(a.duplicate());
                proof {
                    if chain_ok(before.events) {
                        super::ledger::law_logged_step_keeps_store_valid_chain(before, self@, ev@);
                    }
                    if consistent(before) {
                        super::ledger::law_logged_step_keeps_consistent(before, self@, ev@);
                    }
                }
                assert(self@.accounts =~= o.accounts + new_accounts(o.accounts, av.take(i + 1)));
            } else {
                assert(self@.accounts =~= o.accounts + new_accounts(o.accounts, av.take(i + 1)));
            }
            i = i + 1;
        }
        assert(av.take(accounts.len() as int) =~= av);
    }
}

fn first_unbalanced_exec(txs: &Vec<Transaction>) -> (r: Option<String>)
    ensures
        r is None <==> first_unbalanced(txs_view(txs@)) is None,
        r matches Some(m) ==> (first_unbalanced(txs_view(txs@)) matches Some(k) && 0 <= k < txs@.len() && exists|e: crate::error::CoreError|
            verify_error_ok(e, txs@[k].id, txs@[k]@.postings) && m@ == core_error_msg(e)),
{
    let ghost tv = txs_view(txs@);
    let mut i: usize = 0;
    assert(tv.skip(0) =~= tv);
    while i < txs.len()
        invariant
            i <= txs.len(),
            tv == txs_view(txs@),
            first_unbalanced(tv) == match first_unbalanced(tv.skip(i as int)) {
                Some(j) => Some(j + i),
                None => None,
            },
        decreases txs.len() - i,
    {
        assert(tv.skip(i as int)[0] == txs@[i as int]@);
        match verify_transaction(&txs[i]) {
            Err(e) => {
                return Some(e.message());
            },
            Ok(()) => {},
        }
        assert(tv.skip(i as int).drop_first() =~= tv.skip(i + 1));
        i = i + 1;
    }
    assert(tv.skip(i as int) =~= Seq::<TxView>::empty());
    None
}

impl Store {
    fn add_rows(&mut self, spec: &ImportBatchSpec, rows: &Vec<StatementRowSpec>)
        requires
            old(self)@.rows.len() + rows.len() + 1 < i64::MAX,
        ensures
            final(self)@.rows == old(self)@.rows + super::rows::rows_of_specs((old(self)@.rows.len() + 1) as int, spec.id, spec.adapter@, spec.account_id@, specs_view(rows@)),
            final(self)@.accounts == old(self)@.accounts,
            final(self)@.txs == old(self)@.txs,
            final(self)@.events == old(self)@.events,
            final(self)@.batches == old(self)@.batches,
    {
        let ghost o = self@;
        let ghost sv = specs_view(rows@);
        let base = self.rows.len();
        let mut k: usize = 0;
        while k < rows.len()
            invariant
                k <= rows.len(),
                base == o.rows.len(),
                base + rows.len() + 1 < i64::MAX,
                sv == specs_view(rows@),
                self@.rows == o.rows + super::rows::rows_of_specs((base + 1) as int, spec.id, spec.adapter@, spec.account_id@, sv).take(k as int),
                self@.accounts == o.accounts,
                self@.txs == o.txs,
                self@.events == o.events,
                self@.batches == o.batches,
            decreases rows.len() - k,
        {
            let id = (base as u128 + k as u128 + 1) as i64;
            let row = super::rows::row_from_spec(id, spec.id, &spec.adapter, &spec.account_id, &rows[k]);
            let ghost prev = self@.rows;
            self.rows.push(row);
            assert(self@.rows =~= prev.push(row@));
            assert(super::rows::rows_of_specs((base + 1) as int, spec.id, spec.adapter@, spec.account_id@, sv).take(k + 1)
                =~= super::rows::rows_of_specs((base + 1) as int, spec.id, spec.adapter@, spec.account_id@, sv).take(k as int).push(row@));
            k = k + 1;
        }
        assert(super::rows::rows_of_specs((base + 1) as int, spec.id, spec.adapter@, spec.account_id@, sv).take(rows.len() as int)
            =~= super::rows::rows_of_specs((base + 1) as int, spec.id, spec.adapter@, spec.account_id@, sv));
    }

    fn post_new(&mut self, txs: Vec<Transaction>) -> (r: (u64, u64, u64))
        requires
            first_unbalanced(txs_view(txs@)) is None,
            old(self)@.events.len() + txs.len() < u64::MAX,
        ensures
            final(self)@.txs == old(self)@.txs + new_txs(old(self)@.txs, txs_view(txs@)),
            final(self)@.events.len() == old(self)@.events.len() + new_txs(old(self)@.txs, txs_view(txs@)).len(),
            r.0 == new_txs(old(self)@.txs, txs_view(txs@)).len(),
            r.0 + r.1 == txs.len(),
            r.0 > 0 ==> r.2 == final(self)@.events.len(),
            r.0 == 0 ==> r.2 == 0,
            final(self)@.accounts == old(self)@.accounts,
            final(self)@.batches == old(self)@.batches,
            final(self)@.rows == old(self)@.rows,
            chain_ok(old(self)@.events) ==> chain_ok(final(self)@.events),
            consistent(old(self)@) ==> consistent(final(self)@),
    {
        let ghost tv = txs_view(txs@);
        let ghost o = self@;
        let mut posted: u64 = 0;
        let mut skipped: u64 = 0;
        let mut last_seq: u64 = 0;
        let mut i: usize = 0;
        assert(tv.take(0) =~= Seq::<TxView>::empty());
        assert(o.txs + new_txs(o.txs, tv.take(0)) =~= o.txs);
        assert(tv.skip(0) =~= tv);
        while i < txs.len()
            invariant
                i <= txs.len(),
                tv == txs_view(txs@),
                first_unbalanced(tv.skip(i as int)) is None,
                self@.txs == o.txs + new_txs(o.txs, tv.take(i as int)),
                self@.events.len() == o.events.len() + new_txs(o.txs, tv.take(i as int)).len(),
                posted == new_txs(o.txs, tv.take(i as int)).len(),
                posted + skipped == i,
                posted <= i,
                posted > 0 ==> last_seq == self@.events.len(),
                posted == 0 ==> last_seq == 0,
                o.events.len() + txs.len() < u64::MAX,
                self@.accounts == o.accounts,
                self@.batches == o.batches,
                self@.rows == o.rows,
                chain_ok(o.events) ==> chain_ok(self@.events),
                consistent(o) ==> consistent(self@),
            decreases txs.len() - i,
        {
            let t = txs[i].duplicate();
            assert(tv.take(i + 1).drop_last() =~= tv.take(i as int));
            assert(tv.take(i + 1).last() == t@);
            assert(tv.skip(i as int)[0] == t@);
            assert(tv.skip(i as int).drop_first() =~= tv.skip(i + 1));
            if find_tx_exec(&self.transactions, t.id).is_some() {
                skipped = skipped + 1;
                assert(self@.txs =~= o.txs + new_txs(o.txs, tv.take(i + 1)));
            } else {
                let ghost before = self@;
                match self.post_transaction(t) {
                    Ok(ev) => {
                        proof {
                            if chain_ok(before.events) {
                                super::ledger::law_logged_step_keeps_store_valid_chain(before, self@, ev@);
                            }
                            if consistent(before) {
                                super::ledger::law_logged_step_keeps_consistent(before, self@, ev@);
                            }
                        }
                        posted = posted + 1;
                        last_seq = ev.seq;
                        assert(self@.txs =~= o.txs + new_txs(o.txs, tv.take(i + 1)));
                    },
                    Err(_) => {
                        assert(false);
                    },
                }
            }
            i = i + 1;
        }
        assert(tv.take(txs.len() as int) =~= tv);
        (posted, skipped, last_seq)
    }

    /// Persist a parsed import: new accounts, the batch, an `Imported` event,
    /// the statement rows and a `Posted` event per new transaction. Idempotent
    /// on (adapter, source hash, account); transactions whose id is already
    /// stored are skipped, not re-posted. A failure leaves the store unchanged.
    pub fn apply_import(
        &mut self,
        spec: ImportBatchSpec,
        accounts: Vec<Account>,
        transactions: Vec<Transaction>,
        statement_rows: Vec<StatementRowSpec>,
    ) -> (r: Result<ImportOutcome, String>)
        requires
            old(self)@.events.len() + accounts.len() + transactions.len() + 1 < u64::MAX,
            old(self)@.rows.len() + statement_rows.len() + 1 < i64::MAX,
        ensures
            sound(old(self)@) ==> sound(final(self)@),
            match find_batch(old(self)@.batches, spec.adapter@, spec.source_sha256@, spec.account_id@) {
                Some(p) => r matches Ok(ImportOutcome::Duplicate { batch_id }) && batch_id == old(self)@.batches[p].id
                    && final(self)@ == old(self)@,
                None => if has_batch_id(old(self)@.batches, spec.id) {
                    r matches Err(m) && m@ == "UNIQUE constraint failed: import_batches.id"@ && final(self)@ == old(self)@
                } else {
                    match first_unbalanced(txs_view(transactions@)) {
                        Some(k) => r matches Err(m) && final(self)@ == old(self)@ && exists|e: crate::error::CoreError|
                            verify_error_ok(e, transactions@[k].id, transactions@[k]@.postings) && m@ == core_error_msg(e),
                        None => r matches Ok(ImportOutcome::Applied { batch_id, posted, skipped_existing, last_seq })
                            && batch_id == spec.id
                            && posted == new_txs(old(self)@.txs, txs_view(transactions@)).len()
                            && posted + skipped_existing == transactions.len()
                            && (posted > 0 ==> last_seq == final(self)@.events.len())
                            && (posted == 0 ==> last_seq == 0)
                            && import_applied(old(self)@, final(self)@, spec@, accts_view(accounts@), txs_view(transactions@), specs_view(statement_rows@)),
                    }
                },
            },
    {
        match self.find_import_batch(spec.adapter.as_str(), &spec.source_sha256, spec.account_id.as_str()) {
            Some(existing) => {
                return Ok(ImportOutcome::Duplicate { batch_id: existing });
            },
            None => {},
        }
        if self.has_batch_id_exec(spec.id) {
            return Err(owned("UNIQUE constraint failed: import_batches.id"));
        }
        match first_unbalanced_exec(&transactions) {
            Some(m) => {
                return Err(m);
            },
            None => {},
        }
        let ghost o = self@;
        let mut work = self.duplicate();
        proof {
            lemma_new_accounts_len(o.accounts, accts_view(accounts@));
        }
        work.add_accounts(&accounts);
        work.batches.push(spec.duplicate());
        assert(work@.batches =~= o.batches.push(spec@));
        let ghost before = work@;
        let imported = work.push_event(
            EventKind::Imported,
            EventPayload::Imported {
                batch_id: spec.id,
                source_path: spec.source_path.clone(),
                source_sha256: spec.source_sha256.duplicate(),
                row_count: spec.row_count,
            },
        );
        proof {
            if chain_ok(before.events) {
                super::ledger::law_logged_step_keeps_store_valid_chain(before, work@, imported@);
            }
            if consistent(before) {
                super::ledger::law_logged_step_keeps_consistent(before, work@, imported@);
            }
        }
        work.add_rows(&spec, &statement_rows);
        let (posted, skipped, last_seq) = work.post_new(transactions);
        *self = work;
        Ok(ImportOutcome::Applied { batch_id: spec.id, posted, skipped_existing: skipped, last_seq })
    }
}

/// Importing the same source bytes with the same adapter for the same account
/// a second time is recognised and changes nothing: after an applied import
/// the batch is found.
pub proof fn law_import_is_idempotent(old: StoreView, new: StoreView, spec: BatchView, accounts: Seq<AccountView>, txs: Seq<TxView>, rows: Seq<RowSpecView>)
    requires
        import_applied(old, new, spec, accounts, txs, rows),
    ensures
        find_batch(new.batches, spec.adapter, spec.source_sha256, spec.account_id) is Some,
{
    lemma_find_batch_last(old.batches, spec);
}

proof fn lemma_find_batch_last(bs: Seq<BatchView>, spec: BatchView)
    ensures
        find_batch(bs.push(spec), spec.adapter, spec.source_sha256, spec.account_id) is Some,
    decreases bs.len(),
{
    if bs.len() > 0 {
        assert(bs.push(spec).drop_first() =~= bs.drop_first().push(spec));
        lemma_find_batch_last(bs.drop_first(), spec);
    }
}

} // verus!
