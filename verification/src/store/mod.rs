//! The ledger store: accounts, transactions, import batches, statement rows
//! and the hash-chained event log, kept in step with each other.
use vstd::prelude::*;

pub mod import;
pub mod ledger;
pub mod rows;
pub mod why;

use crate::account::{Account, AccountView};
use crate::event::{events_view, expected_hash, sealed, Event, EventKind, EventPayload, EventView, PayloadView};
use crate::hash::{zeros, ContentHash};
use crate::ids::{ImportBatchId, TransactionId};
use crate::snapshot::{txs_view, LedgerSnapshot};
use crate::text::{chars_of, nat_str, nat_str_u128, push_chars, push_str, str_eq, string_of};
use crate::transaction::{strings_view, Transaction, TxView};
use import::{BatchView, ImportBatchSpec};
use rows::{RowView, StatementRow};

verus! {

/// The schema version of the stored tables.
pub const SCHEMA_VERSION: i32 = 2;

#[derive(Clone, Debug)]
/// Local LedgerKit workspace store: the tables and the event log.
pub struct Store {
    pub(crate) accounts: Vec<Account>,
    pub(crate) transactions: Vec<Transaction>,
    pub(crate) events: Vec<Event>,
    pub(crate) batches: Vec<ImportBatchSpec>,
    pub(crate) rows: Vec<StatementRow>,
}

pub struct StoreView {
    pub accounts: Seq<AccountView>,
    pub txs: Seq<TxView>,
    pub events: Seq<EventView>,
    pub batches: Seq<BatchView>,
    pub rows: Seq<RowView>,
}

pub open spec fn accounts_view(v: Seq<Account>) -> Seq<AccountView> {
    v.map_values(|a: Account| a@)
}

impl View for Store {
    type V = StoreView;

    closed spec fn view(&self) -> StoreView {
        StoreView {
            accounts: accounts_view(self.accounts@),
            txs: txs_view(self.transactions@),
            events: events_view(self.events@),
            batches: import::batches_view(self.batches@),
            rows: rows::rows_view(self.rows@),
        }
    }
}

/// The hash the next event links to: the last content hash, zeros at genesis.
pub open spec fn tip(events: Seq<EventView>) -> Seq<char> {
    if events.len() == 0 {
        zeros(64)
    } else {
        events.last().content_hash
    }
}

/// Every event links to the one before it, carries the hash its fields call
/// for, and is numbered from 1 in order.
pub open spec fn chain_ok(events: Seq<EventView>) -> bool {
    forall|i: int|
        0 <= i < events.len() ==> (#[trigger] events[i]).prev_hash == tip(events.take(i)) && sealed(events[i])
            && events[i].seq == i + 1
}

/// The first transaction with id `id`.
pub open spec fn find_tx(txs: Seq<TxView>, id: TransactionId) -> Option<int>
    decreases txs.len(),
{
    if txs.len() == 0 {
        None
    } else if txs[0].id == id {
        Some(0)
    } else {
        match find_tx(txs.drop_first(), id) {
            Some(j) => Some(j + 1),
            None => None,
        }
    }
}

pub open spec fn is_category_tag(t: Seq<char>) -> bool {
    t.len() >= 9 && t.take(9) == "category:"@
}

/// The tags that are not `category:` tags, in order.
pub open spec fn without_category(tags: Seq<Seq<char>>) -> Seq<Seq<char>>
    decreases tags.len(),
{
    if tags.len() == 0 {
        tags
    } else if is_category_tag(tags.last()) {
        without_category(tags.drop_last())
    } else {
        without_category(tags.drop_last()).push(tags.last())
    }
}

/// A transaction's tags after categorising it as `category`.
pub open spec fn recategorized(tags: Seq<Seq<char>>, category: Seq<char>) -> Seq<Seq<char>> {
    without_category(tags).push("category:"@ + category)
}

/// What one event does to the transactions: a posting adds (or replaces) its
/// transaction, a dedupe link sets `duplicate_of`, a categorisation replaces
/// the category tag; other events change nothing.
pub open spec fn apply_event(txs: Seq<TxView>, e: EventView) -> Seq<TxView> {
    match e.payload {
        PayloadView::Posted { transaction } => match find_tx(txs, transaction.id) {
            Some(p) => txs.update(p, transaction),
            None => txs.push(transaction),
        },
        PayloadView::Deduped { duplicate_id, survivor_id, .. } => match find_tx(txs, TransactionId(duplicate_id)) {
            Some(p) => txs.update(p, TxView { duplicate_of: Some(TransactionId(survivor_id)), ..txs[p] }),
            None => txs,
        },
        PayloadView::Categorized { transaction_id, category, .. } => match find_tx(txs, TransactionId(transaction_id)) {
            Some(p) => txs.update(p, TxView { tags: recategorized(txs[p].tags, category), ..txs[p] }),
            None => txs,
        },
        _ => txs,
    }
}

/// The transactions the events fold to, in event order.
pub open spec fn replay(events: Seq<EventView>) -> Seq<TxView>
    decreases events.len(),
{
    if events.len() == 0 {
        Seq::empty()
    } else {
        apply_event(replay(events.drop_last()), events.last())
    }
}

/// The stored transactions are exactly what replaying the log gives.
pub open spec fn consistent(v: StoreView) -> bool {
    v.txs == replay(v.events)
}

/// A store whose log is a valid hash chain and whose transactions are the
/// replay of that log.
pub open spec fn sound(v: StoreView) -> bool {
    chain_ok(v.events) && consistent(v)
}

pub(crate) fn owned(s: &str) -> (r: String)
    ensures
        r@ == s@,
{
    string_of(chars_of(s).as_slice())
}

/// A position `find_tx` returns holds the transaction sought.
pub(crate) proof fn lemma_find_tx_found(txs: Seq<TxView>, id: TransactionId)
    ensures
        find_tx(txs, id) matches Some(p) ==> 0 <= p < txs.len() && txs[p].id == id,
    decreases txs.len(),
{
    if txs.len() > 0 && txs[0].id != id {
        lemma_find_tx_found(txs.drop_first(), id);
    }
}

pub(crate) fn find_tx_exec(txs: &Vec<Transaction>, id: TransactionId) -> (r: Option<usize>)
    ensures
        r is None <==> find_tx(txs_view(txs@), id) is None,
        r matches Some(p) ==> find_tx(txs_view(txs@), id) == Some(p as int) && p < txs.len(),
{
    let ghost tv = txs_view(txs@);
    let mut i: usize = 0;
    assert(tv.skip(0) =~= tv);
    while i < txs.len()
        invariant
            i <= txs.len(),
            tv == txs_view(txs@),
            find_tx(tv, id) == match find_tx(tv.skip(i as int), id) {
                Some(j) => Some(j + i),
                None => None,
            },
        decreases txs.len() - i,
    {
        assert(tv.skip(i as int)[0] == txs@[i as int]@);
        if txs[i].id.0 == id.0 {
            return Some(i);
        }
        assert(tv.skip(i as int).drop_first() =~= tv.skip(i + 1));
        i = i + 1;
    }
    assert(tv.skip(i as int) =~= Seq::<TxView>::empty());
    None
}

fn is_category_tag_exec(t: &String) -> (r: bool)
    ensures
        r == is_category_tag(t@),
{
    let c = chars_of(t.as_str());
    let prefix = chars_of("category:");
    proof {
        reveal_strlit("category:");
    }
    if c.len() < 9 {
        return false;
    }
    let mut k: usize = 0;
    while k < 9 && c[k] == prefix[k]
        invariant
            k <= 9,
            c@ == t@,
            c@.len() >= 9,
            prefix@ == "category:"@,
            prefix@.len() == 9,
            forall|q: int| 0 <= q < k ==> c@[q] == prefix@[q],
        decreases 9 - k,
    {
        k = k + 1;
    }
    if k == 9 {
        assert(c@.take(9) =~= prefix@);
        true
    } else {
        assert(c@.take(9)[k as int] != prefix@[k as int]);
        false
    }
}

pub(crate) fn recategorize_exec(tags: &Vec<String>, category: &String) -> (r: Vec<String>)
    ensures
        strings_view(r@) == recategorized(strings_view(tags@), category@),
{
    let ghost tv = strings_view(tags@);
    let mut out: Vec<String> = Vec::new();
    let mut i: usize = 0;
    assert(tv.take(0) =~= Seq::<Seq<char>>::empty());
    while i < tags.len()
        invariant
            i <= tags.len(),
            tv == strings_view(tags@),
            strings_view(out@) == without_category(tv.take(i as int)),
        decreases tags.len() - i,
    {
        assert(tv.take(i + 1).drop_last() =~= tv.take(i as int));
        assert(tv.take(i + 1).last() == tags@[i as int]@);
        if !is_category_tag_exec(&tags[i]) {
            let ghost prev = out@;
            out.push(tags[i].clone());
            assert(strings_view(out@) =~= strings_view(prev).push(tags@[i as int]@));
        }
        i = i + 1;
    }
    assert(tv.take(tags.len() as int) =~= tv);
    let mut t = owned("category:");
    push_str(&mut t, category.as_str());
    let ghost prev = out@;
    out.push(t);
    assert(strings_view(out@) =~= strings_view(prev).push("category:"@ + category@));
    out
}

/// Applies one event to the transactions, as `apply_event` says.
pub(crate) fn apply_event_exec(txs: &mut Vec<Transaction>, e: &Event)
    ensures
        txs_view(final(txs)@) == apply_event(txs_view(old(txs)@), e@),
{
    let ghost tv = txs_view(txs@);
    match &e.payload {
        EventPayload::Posted { transaction } => {
            match find_tx_exec(txs, transaction.id) {
                Some(p) => {
                    txs.set(p, transaction.duplicate());
                    assert(txs_view(txs@) =~= tv.update(p as int, transaction@));
                },
                None => {
                    txs.push(transaction.duplicate());
                    assert(txs_view(txs@) =~= tv.push(transaction@));
                },
            }
        },
        EventPayload::Deduped { duplicate_id, survivor_id, .. } => {
            match find_tx_exec(txs, *duplicate_id) {
                Some(p) => {
                    let mut t = txs[p].duplicate();
                    t.duplicate_of = Some(*survivor_id);
                    txs.set(p, t);
                    assert(txs_view(txs@) =~= tv.update(p as int, TxView { duplicate_of: Some(TransactionId(survivor_id.0)), ..tv[p as int] }));
                },
                None => {},
            }
        },
        EventPayload::Categorized { transaction_id, category, .. } => {
            match find_tx_exec(txs, *transaction_id) {
                Some(p) => {
                    let mut t = txs[p].duplicate();
                    t.tags = recategorize_exec(&txs[p].tags, category);
                    txs.set(p, t);
                    assert(txs_view(txs@) =~= tv.update(p as int, TxView { tags: recategorized(tv[p as int].tags, category@), ..tv[p as int] }));
                },
                None => {},
            }
        },
        _ => {},
    }
}

/// What walking the chain from genesis finds after `n` events: the running
/// tip, or the message for the first event that does not link or does not
/// carry the hash its fields call for.
pub open spec fn check_chain(events: Seq<EventView>, n: nat) -> Result<Seq<char>, Seq<char>>
    decreases n,
{
    if n == 0 {
        Ok(zeros(64))
    } else {
        match check_chain(events, (n - 1) as nat) {
            Err(m) => Err(m),
            Ok(prev) => {
                let e = events[n - 1];
                if e.prev_hash != prev {
                    Err("event chain broken at seq "@ + nat_str(e.seq as nat) + ": prev_hash mismatch"@)
                } else if !sealed(e) {
                    Err("event chain broken at seq "@ + nat_str(e.seq as nat) + ": content_hash mismatch"@)
                } else {
                    Ok(e.content_hash)
                }
            },
        }
    }
}

/// The events numbered at most `max_seq`, in order.
pub open spec fn events_upto(events: Seq<EventView>, max_seq: u64) -> Seq<EventView>
    decreases events.len(),
{
    if events.len() == 0 {
        events
    } else if events.last().seq <= max_seq {
        events_upto(events.drop_last(), max_seq).push(events.last())
    } else {
        events_upto(events.drop_last(), max_seq)
    }
}

pub open spec fn hash_res_view(r: Result<ContentHash, String>) -> Result<Seq<char>, Seq<char>> {
    match r {
        Ok(h) => Ok(h@),
        Err(m) => Err(m@),
    }
}

proof fn lemma_check_chain_ok(events: Seq<EventView>, n: nat)
    requires
        chain_ok(events),
        n <= events.len(),
    ensures
        check_chain(events, n) == Ok::<Seq<char>, Seq<char>>(tip(events.take(n as int))),
    decreases n,
{
    if n > 0 {
        lemma_check_chain_ok(events, (n - 1) as nat);
        let e = events[n - 1];
        assert(e.prev_hash == tip(events.take(n - 1)));
        assert(events.take(n as int).last() == e);
    } else {
        assert(events.take(0).len() == 0);
    }
}

/// A log that the store's own operations built verifies: walking it from
/// genesis reaches its tip without a break.
/// A sound store (every store built by `Store::new` and the logged
/// operations) verifies: its chain checks out up to the tip, and the
/// replay of its whole log is its table of transactions.
pub proof fn law_sound_store_verifies(v: StoreView)
    requires
        sound(v),
    ensures
        check_chain(v.events, v.events.len()) == Ok::<Seq<char>, Seq<char>>(tip(v.events)),
        replay(events_upto(v.events, u64::MAX)) == v.txs,
{
    law_chain_verifies(v.events);
    ledger::law_replay_matches_table(v);
}

pub proof fn law_chain_verifies(events: Seq<EventView>)
    requires
        chain_ok(events),
    ensures
        check_chain(events, events.len()) == Ok::<Seq<char>, Seq<char>>(tip(events)),
{
    lemma_check_chain_ok(events, events.len());
    assert(events.take(events.len() as int) =~= events);
}

proof fn lemma_chain_push(events: Seq<EventView>, e: EventView)
    requires
        chain_ok(events),
        e.prev_hash == tip(events),
        sealed(e),
        e.seq == events.len() + 1,
    ensures
        chain_ok(events.push(e)),
{
    let s = events.push(e);
    assert forall|i: int| 0 <= i < s.len() implies (#[trigger] s[i]).prev_hash == tip(s.take(i)) && sealed(s[i])
        && s[i].seq == i + 1 by {
        if i < events.len() {
            assert(s.take(i) =~= events.take(i));
            assert(s[i] == events[i]);
        } else {
            assert(s.take(i) =~= events);
        }
    }
}

impl Store {
    /// An empty store.
    pub fn new() -> (r: Store)
        ensures
            r@.accounts.len() == 0,
            r@.txs.len() == 0,
            r@.events.len() == 0,
            r@.batches.len() == 0,
            r@.rows.len() == 0,
            chain_ok(r@.events),
            consistent(r@),
            sound(r@),
    {
        let r = Store { accounts: Vec::new(), transactions: Vec::new(), events: Vec::new(), batches: Vec::new(), rows: Vec::new() };
        assert(r@.events =~= Seq::<EventView>::empty());
        assert(r@.txs =~= Seq::<TxView>::empty());
        r
    }

    /// A store holding the given tables and log, as they were read back.
    pub fn from_parts(
        accounts: Vec<Account>,
        transactions: Vec<Transaction>,
        events: Vec<Event>,
        batches: Vec<ImportBatchSpec>,
        rows: Vec<StatementRow>,
    ) -> (r: Store)
        ensures
            r@.accounts == accounts_view(accounts@),
            r@.txs == txs_view(transactions@),
            r@.events == events_view(events@),
            r@.batches == import::batches_view(batches@),
            r@.rows == rows::rows_view(rows@),
    {
        Store { accounts, transactions, events, batches, rows }
    }

    pub fn schema_version(&self) -> (r: i32)
        ensures
            r == 2,
    {
        SCHEMA_VERSION
    }

    pub fn event_count(&self) -> (r: u64)
        ensures
            r == self@.events.len(),
    {
        self.events.len() as u64
    }

    pub fn transaction_count(&self) -> (r: u64)
        ensures
            r == self@.txs.len(),
    {
        self.transactions.len() as u64
    }

    /// The number of postings over all stored transactions.
    pub fn posting_count(&self) -> (r: u128)
        ensures
            r == crate::verify::total_postings(self@.txs),
    {
        let ghost tv = self@.txs;
        let mut n: u128 = 0;
        let mut i: usize = 0;
        assert(tv.take(0) =~= Seq::<TxView>::empty());
        while i < self.transactions.len()
            invariant
                i <= self.transactions.len(),
                tv == self@.txs,
                tv == txs_view(self.transactions@),
                n == crate::verify::total_postings(tv.take(i as int)),
                n <= i * 0x1_0000_0000_0000_0000,
            decreases self.transactions.len() - i,
        {
            assert(tv.take(i + 1).drop_last() =~= tv.take(i as int));
            assert(tv.take(i + 1).last() == self.transactions@[i as int]@);
            n = n + self.transactions[i].postings.len() as u128;
            i = i + 1;
        }
        assert(tv.take(self.transactions.len() as int) =~= tv);
        n
    }

    /// The hash the next event must link to.
    pub fn last_event_hash(&self) -> (r: ContentHash)
        ensures
            r@ == tip(self@.events),
    {
        if self.events.len() == 0 {
            ContentHash::zero()
        } else {
            let last = &self.events[self.events.len() - 1];
            assert(self@.events.last() == last@);
            last.content_hash.duplicate()
        }
    }

    /// Seals an event on the current tip and appends it with the next number.
    pub(crate) fn push_event(&mut self, kind: EventKind, payload: EventPayload) -> (r: Event)
        requires
            old(self)@.events.len() < u64::MAX,
        ensures
            final(self)@.events == old(self)@.events.push(r@),
            final(self)@.accounts == old(self)@.accounts,
            final(self)@.txs == old(self)@.txs,
            final(self)@.batches == old(self)@.batches,
            final(self)@.rows == old(self)@.rows,
            r.kind == kind,
            r.payload@ == payload@,
            r@.prev_hash == tip(old(self)@.events),
            r.seq == old(self)@.events.len() + 1,
            sealed(r@),
            chain_ok(old(self)@.events) ==> chain_ok(final(self)@.events),
    {
        let prev = self.last_event_hash();
        let mut event = Event::seal(kind, payload, prev);
        event.seq = self.events.len() as u64 + 1;
        let stored = event.duplicate();
        self.events.push(stored);
        assert(self@.events =~= old(self)@.events.push(event@));
        proof {
            if chain_ok(old(self)@.events) {
                lemma_chain_push(old(self)@.events, event@);
            }
        }
        event
    }

    /// Append a sealed event. Assigns the next `seq`. Returns the stored event.
    pub fn append_event(&mut self, event: Event) -> (r: Result<Event, String>)
        requires
            old(self)@.events.len() < u64::MAX,
        ensures
            r is Ok <==> (event@.prev_hash == tip(old(self)@.events) && sealed(event@)),
            r matches Ok(e) ==> e@ == (EventView { seq: (old(self)@.events.len() + 1) as u64, ..event@ })
                && final(self)@.events == old(self)@.events.push(e@),
            r is Err ==> final(self)@.events == old(self)@.events,
            final(self)@.accounts == old(self)@.accounts,
            final(self)@.txs == old(self)@.txs,
            final(self)@.batches == old(self)@.batches,
            final(self)@.rows == old(self)@.rows,
            chain_ok(old(self)@.events) ==> chain_ok(final(self)@.events),
    {
        let tip_hash = self.last_event_hash();
        if !event.prev_hash.same(&tip_hash) {
            let mut m = owned("event prev_hash mismatch: got ");
            push_str(&mut m, event.prev_hash.as_str());
            push_str(&mut m, ", tip ");
            push_str(&mut m, tip_hash.as_str());
            return Err(m);
        }
        let expected = event.expected_content_hash();
        if !event.content_hash.same(&expected) {
            return Err(owned("event content_hash does not match sealed payload"));
        }
        let mut event = event;
        event.seq = self.events.len() as u64 + 1;
        let stored = event.duplicate();
        self.events.push(stored);
        assert(self@.events =~= old(self)@.events.push(event@));
        proof {
            if chain_ok(old(self)@.events) {
                lemma_chain_push(old(self)@.events, event@);
            }
        }
        Ok(event)
    }

    /// The events numbered at most `max_seq`, in order.
    pub fn events_through(&self, max_seq: u64) -> (r: Vec<Event>)
        ensures
            events_view(r@) == events_upto(self@.events, max_seq),
    {
        let ghost ev = self@.events;
        let mut out: Vec<Event> = Vec::new();
        let mut i: usize = 0;
        assert(ev.take(0) =~= Seq::<EventView>::empty());
        while i < self.events.len()
            invariant
                i <= self.events.len(),
                ev == self@.events,
                ev == events_view(self.events@),
                events_view(out@) == events_upto(ev.take(i as int), max_seq),
            decreases self.events.len() - i,
        {
            assert(ev.take(i + 1).drop_last() =~= ev.take(i as int));
            assert(ev.take(i + 1).last() == self.events@[i as int]@);
            if self.events[i].seq <= max_seq {
                let ghost prev = out@;
                out.push(self.events[i].duplicate());
                assert(events_view(out@) =~= events_view(prev).push(self.events@[i as int]@));
            }
            i = i + 1;
        }
        assert(ev.take(self.events.len() as int) =~= ev);
        out
    }

    /// Every event, in order.
    pub fn list_events(&self) -> (r: Vec<Event>)
        ensures
            events_view(r@) == events_upto(self@.events, u64::MAX),
    {
        self.events_through(u64::MAX)
    }

    /// Verify the prev/content hash chain. Returns the tip, or the first break.
    pub fn verify_event_chain(&self) -> (r: Result<ContentHash, String>)
        ensures
            hash_res_view(r) == check_chain(self@.events, self@.events.len()),
            chain_ok(self@.events) ==> (r matches Ok(h) && h@ == tip(self@.events)),
    {
        proof {
            if chain_ok(self@.events) {
                law_chain_verifies(self@.events);
            }
        }
        let ghost ev = self@.events;
        let mut prev = ContentHash::zero();
        let mut i: usize = 0;
        while i < self.events.len()
            invariant
                i <= self.events.len(),
                ev == self@.events,
                ev == events_view(self.events@),
                check_chain(ev, i as nat) == Ok::<Seq<char>, Seq<char>>(prev@),
            decreases self.events.len() - i,
        {
            let e = &self.events[i];
            assert(ev[i as int] == e@);
            if !e.prev_hash.same(&prev) {
                let mut m = owned("event chain broken at seq ");
                let n = nat_str_u128(e.seq as u128);
                push_chars(&mut m, &n);
                push_str(&mut m, ": prev_hash mismatch");
                proof {
                    lemma_check_chain_stops(ev, (i + 1) as nat, self.events.len() as nat);
                }
                return Err(m);
            }
            let expected = e.expected_content_hash();
            if !e.content_hash.same(&expected) {
                let mut m = owned("event chain broken at seq ");
                let n = nat_str_u128(e.seq as u128);
                push_chars(&mut m, &n);
                push_str(&mut m, ": content_hash mismatch");
                proof {
                    lemma_check_chain_stops(ev, (i + 1) as nat, self.events.len() as nat);
                }
                return Err(m);
            }
            prev = e.content_hash.duplicate();
            i = i + 1;
        }
        Ok(prev)
    }

    /// Rebuild the ledger by folding the events numbered at most `max_seq`.
    /// Postings add transactions; dedupe links and categorisations fold onto them.
    pub fn replay_through(&self, max_seq: u64) -> (r: LedgerSnapshot)
        ensures
            r@ == replay(events_upto(self@.events, max_seq)),
    {
        let events = self.events_through(max_seq);
        let ghost ev = events_view(events@);
        let mut txs: Vec<Transaction> = Vec::new();
        let mut i: usize = 0;
        assert(ev.take(0) =~= Seq::<EventView>::empty());
        assert(txs_view(txs@) =~= Seq::<TxView>::empty());
        while i < events.len()
            invariant
                i <= events.len(),
                ev == events_view(events@),
                txs_view(txs@) == replay(ev.take(i as int)),
            decreases events.len() - i,
        {
            assert(ev.take(i + 1).drop_last() =~= ev.take(i as int));
            assert(ev.take(i + 1).last() == events@[i as int]@);
            apply_event_exec(&mut txs, &events[i]);
            i = i + 1;
        }
        assert(ev.take(events.len() as int) =~= ev);
        LedgerSnapshot { transactions: txs }
    }

    pub fn replay_all(&self) -> (r: LedgerSnapshot)
        ensures
            r@ == replay(events_upto(self@.events, u64::MAX)),
    {
        self.replay_through(u64::MAX)
    }
}

impl Store {
    /// The stored tables and log, for writing them out.
    pub fn parts(&self) -> (r: (&Vec<Account>, &Vec<Transaction>, &Vec<Event>, &Vec<ImportBatchSpec>, &Vec<StatementRow>))
        ensures
            accounts_view(r.0@) == self@.accounts,
            txs_view(r.1@) == self@.txs,
            events_view(r.2@) == self@.events,
            import::batches_view(r.3@) == self@.batches,
            rows::rows_view(r.4@) == self@.rows,
    {
        (&self.accounts, &self.transactions, &self.events, &self.batches, &self.rows)
    }
}

proof fn lemma_check_chain_stops(events: Seq<EventView>, i: nat, n: nat)
    requires
        i <= n,
        check_chain(events, i) is Err,
    ensures
        check_chain(events, n) == check_chain(events, i),
    decreases n - i,
{
    if i < n {
        lemma_check_chain_stops(events, i, (n - 1) as nat);
    }
}

/// The ids of transactions, in order.
pub open spec fn tx_ids(txs: Seq<TxView>) -> Seq<TransactionId> {
    txs.map_values(|t: TxView| t.id)
}

/// `a` is a prefix of `b`.
pub open spec fn prefix_of<A>(a: Seq<A>, b: Seq<A>) -> bool {
    a.len() <= b.len() && forall|i: int| 0 <= i < a.len() ==> #[trigger] a[i] == b[i]
}

proof fn lemma_upto_take(events: Seq<EventView>, m: u64)
    requires
        forall|i: int| 0 <= i < events.len() ==> (#[trigger] events[i]).seq == i + 1,
    ensures
        events_upto(events, m) == events.take(if m < events.len() { m as int } else { events.len() as int }),
    decreases events.len(),
{
    if events.len() > 0 {
        let d = events.drop_last();
        assert forall|i: int| 0 <= i < d.len() implies (#[trigger] d[i]).seq == i + 1 by {
            assert(d[i] == events[i]);
        }
        lemma_upto_take(d, m);
        assert(events.last() == events[events.len() - 1]);
        if events.last().seq <= m {
            assert(d.take(d.len() as int) =~= d);
            assert(d.push(events.last()) =~= events);
            assert(events.take(events.len() as int) =~= events);
        } else {
            assert(d.take(m as int) =~= events.take(m as int));
        }
    }
}

/// Applying one event keeps the ids already there, in place, and at most adds one at the end.
proof fn lemma_apply_event_ids(txs: Seq<TxView>, e: EventView)
    ensures
        prefix_of(tx_ids(txs), tx_ids(apply_event(txs, e))),
{
    let r = apply_event(txs, e);
    let target = match e.payload {
        PayloadView::Posted { transaction } => find_tx(txs, transaction.id),
        PayloadView::Deduped { duplicate_id, .. } => find_tx(txs, TransactionId(duplicate_id)),
        PayloadView::Categorized { transaction_id, .. } => find_tx(txs, TransactionId(transaction_id)),
        _ => None,
    };
    match e.payload {
        PayloadView::Posted { transaction } => lemma_find_tx_found(txs, transaction.id),
        PayloadView::Deduped { duplicate_id, .. } => lemma_find_tx_found(txs, TransactionId(duplicate_id)),
        PayloadView::Categorized { transaction_id, .. } => lemma_find_tx_found(txs, TransactionId(transaction_id)),
        _ => {},
    }
    assert forall|i: int| 0 <= i < tx_ids(txs).len() implies #[trigger] tx_ids(txs)[i] == tx_ids(r)[i] by {
        match target {
            Some(p) => {
                if i != p {
                    assert(r[i] == txs[i]);
                }
            },
            None => {
                assert(r[i] == txs[i]);
            },
        }
    }
}

proof fn lemma_replay_take_grows(events: Seq<EventView>, k1: int, k2: int)
    requires
        0 <= k1 <= k2 <= events.len(),
    ensures
        prefix_of(tx_ids(replay(events.take(k1))), tx_ids(replay(events.take(k2)))),
    decreases k2 - k1,
{
    if k1 < k2 {
        lemma_replay_take_grows(events, k1, k2 - 1);
        let t = events.take(k2);
        assert(t.drop_last() =~= events.take(k2 - 1));
        let before = replay(events.take(k2 - 1));
        lemma_apply_event_ids(before, t.last());
        let a = tx_ids(replay(events.take(k1)));
        let b = tx_ids(before);
        let c = tx_ids(replay(t));
        assert forall|i: int| 0 <= i < a.len() implies #[trigger] a[i] == c[i] by {
            assert(a[i] == b[i]);
            assert(b[i] == c[i]);
        }
    }
}

/// Replaying the log up to a later sequence number keeps every transaction
/// the earlier replay has, in the same places (a dedupe link or a category
/// only changes a transaction in place); from the last sequence number on,
/// the replay is the whole log's.
pub proof fn law_replay_through_grows(events: Seq<EventView>, m1: u64, m2: u64)
    requires
        chain_ok(events),
        m1 <= m2,
    ensures
        prefix_of(tx_ids(replay(events_upto(events, m1))), tx_ids(replay(events_upto(events, m2)))),
        m2 >= events.len() ==> replay(events_upto(events, m2)) == replay(events_upto(events, u64::MAX)),
{
    assert forall|i: int| 0 <= i < events.len() implies (#[trigger] events[i]).seq == i + 1 by {}
    lemma_upto_take(events, m1);
    lemma_upto_take(events, m2);
    lemma_upto_take(events, u64::MAX);
    let k1 = if m1 < events.len() { m1 as int } else { events.len() as int };
    let k2 = if m2 < events.len() { m2 as int } else { events.len() as int };
    lemma_replay_take_grows(events, k1, k2);
}

} // verus!
