//! Explanations: every logged event that touched a transaction or a statement row.
use vstd::prelude::*;

use super::ledger::by_date_id;
use super::rows::{RowView, StatementRow};
use super::{events_upto, find_tx, find_tx_exec, owned, Store};
use crate::date::{chrono_parse, Date};
use crate::event::{event_kind_str, kind_str, Event, EventPayload, EventView, PayloadView};
use crate::ids::{uuid_str, uuid_to_string, TransactionId};
use crate::text::{int_str, int_str_i64, join, nat_str, nat_str_u128, push_chars, push_str, str_eq};
use crate::transaction::{strings_view, Transaction, TxView};
use crate::verify::join_strings;

verus! {

#[derive(Clone, Debug)]
pub struct WhyStep {
    pub seq: u64,
    pub kind: &'static str,
    pub summary: String,
}

pub struct StepView {
    pub seq: u64,
    pub kind: Seq<char>,
    pub summary: Seq<char>,
}

impl View for WhyStep {
    type V = StepView;

    open spec fn view(&self) -> StepView {
        StepView { seq: self.seq, kind: self.kind@, summary: self.summary@ }
    }
}

pub open spec fn steps_view(v: Seq<WhyStep>) -> Seq<StepView> {
    v.map_values(|s: WhyStep| s@)
}

/// The transaction with this id in the snapshot, if any.
pub open spec fn tx_in(txs: Seq<TxView>, id: TransactionId) -> Option<TxView> {
    match find_tx(txs, id) {
        Some(p) => Some(txs[p]),
        None => None,
    }
}

pub open spec fn in_proof(tx: Option<TxView>, account: Seq<char>, as_of: Seq<char>) -> bool {
    match tx {
        None => false,
        Some(t) => crate::store::rows::posts_to(t.postings, account) && match chrono_parse(as_of, "%Y-%m-%d"@) {
            Some(d) => (t.date.y(), t.date.m(), t.date.d()) == d || (t.date.y() < d.0 || (t.date.y() == d.0 && (t.date.m() < d.1
                || (t.date.m() == d.1 && t.date.d() < d.2)))),
            None => false,
        },
    }
}

/// What an event says about the transaction `id` (with `tx` its stored form),
/// if it concerns it.
pub open spec fn why_summary(e: EventView, id: TransactionId, tx: Option<TxView>) -> Option<Seq<char>> {
    match e.payload {
        PayloadView::Posted { transaction } => if transaction.id == id {
            Some("posted payee="@ + transaction.payee + " date="@ + transaction.date.text() + " postings="@
                + nat_str(transaction.postings.len()))
        } else {
            None
        },
        PayloadView::Imported { batch_id, source_path, source_sha256, row_count } => if tx is Some
            && tx->0.import_batch_id == Some(crate::ids::ImportBatchId(batch_id)) {
            Some("imported batch="@ + uuid_str(batch_id) + " source="@ + source_path + " sha256="@ + source_sha256
                + " rows="@ + nat_str(row_count as nat))
        } else {
            None
        },
        PayloadView::Normalized { transaction_id, reasons } => if transaction_id == id.0 {
            Some("normalized reasons="@ + join(reasons, ";"@))
        } else {
            None
        },
        PayloadView::Deduped { duplicate_id, survivor_id, strategy, explanation } => if duplicate_id == id.0
            || survivor_id == id.0 {
            Some("deduped "@ + uuid_str(duplicate_id) + " -> "@ + uuid_str(survivor_id) + " ("@ + strategy + ") "@
                + explanation)
        } else {
            None
        },
        PayloadView::Categorized { transaction_id, category, rule_id, confidence, reasons } => if transaction_id
            == id.0 {
            Some("categorized "@ + category + " rule="@ + rule_id + " conf="@ + nat_str(confidence as nat)
                + " reasons="@ + join(reasons, ";"@))
        } else {
            None
        },
        PayloadView::ManualEdit { transaction_id, summary } => if transaction_id == id.0 {
            Some("manual_edit "@ + summary)
        } else {
            None
        },
        PayloadView::Reconciled { account, as_of, .. } => if in_proof(tx, account, as_of) {
            Some("reconciled account="@ + account + " as_of="@ + as_of)
        } else {
            None
        },
        PayloadView::AccountUpserted { .. } => None,
    }
}

/// The steps for every event that concerns the transaction, in log order.
pub open spec fn why_steps(events: Seq<EventView>, id: TransactionId, tx: Option<TxView>) -> Seq<StepView>
    decreases events.len(),
{
    if events.len() == 0 {
        Seq::empty()
    } else {
        let p = why_steps(events.drop_last(), id, tx);
        let e = events.last();
        match why_summary(e, id, tx) {
            Some(s) => p.push(StepView { seq: e.seq, kind: kind_str(e.kind), summary: s }),
            None => p,
        }
    }
}

pub open spec fn opt_tx(o: Option<Transaction>) -> Option<TxView> {
    match o {
        Some(t) => Some(t@),
        None => None,
    }
}

fn why_summary_exec(e: &Event, id: TransactionId, tx: &Option<Transaction>) -> (r: Option<String>)
    ensures
        crate::posting::opt_str(r) == why_summary(e@, id, opt_tx(*tx)),
{
    let ghost tv = opt_tx(*tx);
    match &e.payload {
        EventPayload::Posted { transaction } => {
            if transaction.id.0 == id.0 {
                let mut s = owned("posted payee=");
                push_str(&mut s, transaction.payee.as_str());
                push_str(&mut s, " date=");
                push_str(&mut s, transaction.date.to_string().as_str());
                push_str(&mut s, " postings=");
                push_chars(&mut s, &nat_str_u128(transaction.postings.len() as u128));
                assert(s@ =~= why_summary(e@, id, tv)->0);
                Some(s)
            } else {
                None
            }
        },
        EventPayload::Imported { batch_id, source_path, source_sha256, row_count } => {
            let hit = match tx {
                Some(t) => match t.import_batch_id {
                    Some(b) => b.0 == batch_id.0,
                    None => false,
                },
                None => false,
            };
            if hit {
                let mut s = owned("imported batch=");
                push_str(&mut s, uuid_to_string(batch_id.0).as_str());
                push_str(&mut s, " source=");
                push_str(&mut s, source_path.as_str());
                push_str(&mut s, " sha256=");
                push_str(&mut s, source_sha256.as_str());
                push_str(&mut s, " rows=");
                push_chars(&mut s, &nat_str_u128(*row_count as u128));
                assert(s@ =~= why_summary(e@, id, tv)->0);
                Some(s)
            } else {
                None
            }
        },
        EventPayload::Normalized { transaction_id, reasons } => {
            if transaction_id.0 == id.0 {
                let mut s = owned("normalized reasons=");
                push_str(&mut s, join_strings(reasons, ";").as_str());
                Some(s)
            } else {
                None
            }
        },
        EventPayload::Deduped { duplicate_id, survivor_id, strategy, explanation } => {
            if duplicate_id.0 == id.0 || survivor_id.0 == id.0 {
                let mut s = owned("deduped ");
                push_str(&mut s, uuid_to_string(duplicate_id.0).as_str());
                push_str(&mut s, " -> ");
                push_str(&mut s, uuid_to_string(survivor_id.0).as_str());
                push_str(&mut s, " (");
                push_str(&mut s, strategy.as_str());
                push_str(&mut s, ") ");
                push_str(&mut s, explanation.as_str());
                assert(s@ =~= why_summary(e@, id, tv)->0);
                Some(s)
            } else {
                None
            }
        },
        EventPayload::Categorized { transaction_id, category, rule_id, confidence, reasons } => {
            if transaction_id.0 == id.0 {
                let mut s = owned("categorized ");
                push_str(&mut s, category.as_str());
                push_str(&mut s, " rule=");
                push_str(&mut s, rule_id.as_str());
                push_str(&mut s, " conf=");
                push_chars(&mut s, &nat_str_u128(*confidence as u128));
                push_str(&mut s, " reasons=");
                push_str(&mut s, join_strings(reasons, ";").as_str());
                assert(s@ =~= why_summary(e@, id, tv)->0);
                Some(s)
            } else {
                None
            }
        },
        EventPayload::ManualEdit { transaction_id, summary } => {
            if transaction_id.0 == id.0 {
                let mut s = owned("manual_edit ");
                push_str(&mut s, summary.as_str());
                Some(s)
            } else {
                None
            }
        },
        EventPayload::Reconciled { account, as_of, .. } => {
            let hit = match tx {
                None => false,
                Some(t) => {
                    let mut on = false;
                    let mut i: usize = 0;
                    while i < t.postings.len()
                        invariant
                            i <= t.postings.len(),
                            on == exists|j: int| 0 <= j < i && (#[trigger] t@.postings[j]).account == account@,
                        decreases t.postings.len() - i,
                    {
                        assert(t@.postings[i as int] == t.postings@[i as int]@);
                        if str_eq(t.postings[i].account.as_str(), account.as_str()) {
                            on = true;
                        }
                        i = i + 1;
                    }
                    on && match Date::parse_from_str(as_of.as_str(), "%Y-%m-%d") {
                        Some(d) => t.date.eq(d) || t.date.lt(d),
                        None => false,
                    }
                },
            };
            if hit {
                let mut s = owned("reconciled account=");
                push_str(&mut s, account.as_str());
                push_str(&mut s, " as_of=");
                push_str(&mut s, as_of.as_str());
                assert(s@ =~= why_summary(e@, id, tv)->0);
                Some(s)
            } else {
                None
            }
        },
        EventPayload::AccountUpserted { .. } => None,
    }
}

impl Store {
    /// Walk the event log for every event that references `tx_id`.
    pub fn why_transaction(&self, tx_id: TransactionId) -> (r: Result<Vec<WhyStep>, String>)
        ensures
            why_steps(events_upto(self@.events, u64::MAX), tx_id, tx_in(by_date_id(self@.txs), tx_id)).len() == 0
                ==> (r matches Err(m) && m@ == "no events reference transaction "@ + uuid_str(tx_id.0)),
            why_steps(events_upto(self@.events, u64::MAX), tx_id, tx_in(by_date_id(self@.txs), tx_id)).len() > 0
                ==> (r matches Ok(v) && steps_view(v@) == why_steps(events_upto(self@.events, u64::MAX), tx_id, tx_in(by_date_id(self@.txs), tx_id))),
    {
        let snapshot = self.load_snapshot();
        let tx = match find_tx_exec(&snapshot.transactions, tx_id) {
            Some(p) => Some(snapshot.transactions[p].duplicate()),
            None => None,
        };
        let ghost tv = opt_tx(tx);
        assert(tv == tx_in(by_date_id(self@.txs), tx_id));
        let events = self.list_events();
        let ghost ev = crate::event::events_view(events@);
        let mut steps: Vec<WhyStep> = Vec::new();
        let mut i: usize = 0;
        assert(ev.take(0) =~= Seq::<EventView>::empty());
        assert(steps_view(steps@) =~= Seq::<StepView>::empty());
        while i < events.len()
            invariant
                i <= events.len(),
                ev == crate::event::events_view(events@),
                steps_view(steps@) == why_steps(ev.take(i as int), tx_id, tv),
                tv == opt_tx(tx),
            decreases events.len() - i,
        {
            let e = &events[i];
            assert(ev.take(i + 1).drop_last() =~= ev.take(i as int));
            assert(ev.take(i + 1).last() == e@);
            match why_summary_exec(e, tx_id, &tx) {
                Some(s) => {
                    let step = WhyStep { seq: e.seq, kind: event_kind_str(e.kind), summary: s };
                    let ghost prev = steps@;
                    steps.push(step);
                    assert(steps_view(steps@) =~= steps_view(prev).push(step@));
                },
                None => {},
            }
            i = i + 1;
        }
        assert(ev.take(events.len() as int) =~= ev);
        if steps.len() == 0 {
            let mut m = owned("no events reference transaction ");
            push_str(&mut m, uuid_to_string(tx_id.0).as_str());
            return Err(m);
        }
        Ok(steps)
    }
}

pub open spec fn opt_or_dash(o: Option<Seq<char>>) -> Seq<char> {
    match o {
        Some(s) => s,
        None => "-"@,
    }
}

pub open spec fn row_summary(row: RowView) -> Seq<char> {
    "id="@ + int_str(row.id as int) + " batch="@ + uuid_str(row.batch_id.0) + " row="@ + int_str(row.row_number as int)
        + " status="@ + row.parse_status + " fingerprint="@ + opt_or_dash(row.fingerprint) + " tx="@ + match row.transaction_id {
        Some(t) => uuid_str(t.0),
        None => "-"@,
    }
}

impl Store {
    /// The statement row's own step, then the steps of its transaction when there are any.
    pub fn why_statement_row(&self, row_id: i64) -> (r: Result<Vec<WhyStep>, String>)
        ensures
            r matches Err(m) ==> m@ == "no statement row "@ + int_str(row_id as int)
                && forall|i: int| 0 <= i < self@.rows.len() ==> (#[trigger] self@.rows[i]).id != row_id,
            r matches Ok(v) ==> v@.len() >= 1 && v@[0]@.seq == 0 && v@[0]@.kind == "statement_row"@
                && exists|i: int| 0 <= i < self@.rows.len() && (#[trigger] self@.rows[i]).id == row_id
                    && v@[0]@.summary == row_summary(self@.rows[i])
                    && (match self@.rows[i].transaction_id {
                        Some(t) => {
                            let more = why_steps(events_upto(self@.events, u64::MAX), t, tx_in(by_date_id(self@.txs), t));
                            steps_view(v@) == seq![v@[0]@] + more
                        },
                        None => v@.len() == 1,
                    }),
    {
        let row = match self.get_statement_row(row_id) {
            Some(r) => r,
            None => {
                let mut m = owned("no statement row ");
                push_chars(&mut m, &int_str_i64(row_id));
                return Err(m);
            },
        };
        let mut s = owned("id=");
        push_chars(&mut s, &int_str_i64(row_id));
        push_str(&mut s, " batch=");
        push_str(&mut s, uuid_to_string(row.batch_id.0).as_str());
        push_str(&mut s, " row=");
        push_chars(&mut s, &int_str_i64(row.row_number));
        push_str(&mut s, " status=");
        push_str(&mut s, row.parse_status.as_str());
        push_str(&mut s, " fingerprint=");
        match &row.fingerprint {
            Some(f) => push_str(&mut s, f.as_str()),
            None => push_str(&mut s, "-"),
        }
        push_str(&mut s, " tx=");
        match row.transaction_id {
            Some(t) => push_str(&mut s, uuid_to_string(t.0).as_str()),
            None => push_str(&mut s, "-"),
        }
        assert(s@ =~= row_summary(row@));
        let first = WhyStep { seq: 0, kind: "statement_row", summary: s };
        let mut steps: Vec<WhyStep> = Vec::new();
        steps.push(first);
        assert(steps_view(steps@) =~= seq![first@]);
        match row.transaction_id {
            Some(t) => {
                match self.why_transaction(t) {
                    Ok(more) => {
                        let mut k: usize = 0;
                        let ghost base = steps@;
                        while k < more.len()
                            invariant
                                k <= more.len(),
                                steps_view(steps@) == steps_view(base) + steps_view(more@).take(k as int),
                            decreases more.len() - k,
                        {
                            let st = WhyStep { seq: more[k].seq, kind: more[k].kind, summary: more[k].summary.clone() };
                            let ghost prev = steps@;
                            steps.push(st);
                            assert(steps_view(steps@) =~= steps_view(prev).push(more@[k as int]@));
                            assert(steps_view(more@).take(k + 1) =~= steps_view(more@).take(k as int).push(more@[k as int]@));
                            k = k + 1;
                        }
                        assert(steps_view(more@).take(more.len() as int) =~= steps_view(more@));
                        assert(steps_view(base) =~= seq![first@]);
                    },
                    Err(_) => {
                        assert(steps_view(steps@) =~= seq![first@]);
                        assert(steps_view(steps@) =~= seq![first@] + why_steps(events_upto(self@.events, u64::MAX), t, tx_in(by_date_id(self@.txs), t)));
                    },
                }
            },
            None => {
                assert(steps@.len() == 1);
            },
        }
        proof {
            let i = choose|i: int| 0 <= i < self@.rows.len() && self@.rows[i] == row@;
            assert(self@.rows[i].id == row_id);
            assert(steps_view(steps@)[0] == first@);
            assert(steps@[0]@ == steps_view(steps@)[0]);
        }
        Ok(steps)
    }
}

} // verus!
