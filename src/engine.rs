use vstd::prelude::*;
use crate::clock::utc_now_seconds;
use crate::error::SyncError;
use crate::replay::{
    apply_batch, contents_of, flatten, lemma_contents_apply_batch, replay_log,
};
use crate::store::{groups_view, listing, ModelGroup, PayloadStore, Record, RecordView};
use crate::transaction::{
    batch_view, duplicate_batch, find_invalid_action, first_invalid, parse_action, Action,
    Transaction, TxView,
};
use crate::tx_log::{entries_batches, range_hi, range_lo, TransactionLog};

verus! {

/// What a range read over log `l` returns: the highest position in range
/// (0 if none) and the transactions of the batches in range, in order.
pub open spec fn range_result(l: Seq<Seq<TxView>>, from: Option<u64>, to: Option<u64>) -> (
    int,
    Seq<TxView>,
) {
    let lo = range_lo(from);
    let hi = range_hi(to, l.len() as int);
    if lo < hi {
        (hi, flatten(l.subrange(lo, hi)))
    } else {
        (0, Seq::empty())
    }
}

/// `after` is `before` with one more batch, committed at position `p`.
pub open spec fn ingested(before: Seq<Seq<TxView>>, after: Seq<Seq<TxView>>, p: u64) -> bool {
    &&& after.len() == before.len() + 1
    &&& before.is_prefix_of(after)
    &&& p == after.len()
}

/// The transaction log and the store materialized from it.
pub struct SyncEngine {
    log: TransactionLog,
    store: PayloadStore,
}

impl SyncEngine {
    /// The log is consistent, the store too, and the store holds what
    /// replaying the log yields.
    pub closed spec fn wf(&self) -> bool {
        &&& self.log.wf()
        &&& self.store.wf()
        &&& contents_of(self.store@) == replay_log(self.log@)
    }

    /// The committed batches in position order.
    pub closed spec fn log_view(&self) -> Seq<Seq<TxView>> {
        self.log@
    }

    /// The current records, keyed by id.
    pub closed spec fn store_view(&self) -> Map<Seq<char>, RecordView> {
        self.store@
    }

    /// The current records in the store's own order.
    pub closed spec fn store_records(&self) -> Seq<Record> {
        self.store.records()
    }

    /// The engine's invariant, unfolded.
    pub proof fn lemma_wf(&self)
        requires
            self.wf(),
        ensures
            contents_of(self.store_view()) == replay_log(self.log_view()),
            crate::store::represents(self.store_records(), self.store_view()),
    {
        self.store.lemma_records();
    }

    pub fn new() -> (r: SyncEngine)
        ensures
            r.wf(),
            r.log_view() == Seq::<Seq<TxView>>::empty(),
            r.store_view() == Map::<Seq<char>, RecordView>::empty(),
            r.store_records().len() == 0,
    {
        let r = SyncEngine { log: TransactionLog::new(), store: PayloadStore::new() };
        assert(contents_of(r.store@) =~= replay_log(r.log@));
        r
    }

    /// The current record with this id, if present.
    pub fn record(&self, record_id: &String) -> (r: Option<&Record>)
        requires
            self.wf(),
        ensures
            r is None <==> !self.store_view().contains_key(record_id@),
            r matches Some(rec) ==> rec.record_id@ == record_id@ && rec.entry()
                == self.store_view()[record_id@],
    {
        self.store.get(record_id)
    }

    /// The highest committed position, or 0.
    pub fn max_position(&self) -> (r: u64)
        requires
            self.wf(),
        ensures
            r == self.log_view().len(),
    {
        self.log.max_position()
    }

    /// Validates `batch`, commits it to the log and replays it into the store,
    /// every transaction at instant `now`; returns the new position.
    /// A batch with an unknown action changes nothing and names the first
    /// such action; a full log changes nothing either.
    pub fn ingest(&mut self, batch: Vec<Transaction>, now: i64) -> (r: Result<u64, SyncError>)
        requires
            old(self).wf(),
        ensures
            final(self).wf(),
            old(self).log_view().is_prefix_of(final(self).log_view()),
            match first_invalid(batch_view(batch@)) {
                Some(i) => r matches Err(SyncError::InvalidAction(a)) && a@ == batch@[i].action@,
                None => if old(self).log_view().len() == u64::MAX {
                    r == Err::<u64, SyncError>(SyncError::Persistence)
                } else {
                    r == Ok::<u64, SyncError>((old(self).log_view().len() + 1) as u64)
                },
            },
            r is Ok ==> final(self).log_view() == old(self).log_view().push(batch_view(batch@))
                && final(self).store_view() == apply_batch(
                old(self).store_view(),
                batch_view(batch@),
                now,
            ),
            r matches Ok(p) ==> ingested(old(self).log_view(), final(self).log_view(), p),
            r is Err ==> final(self).log_view() == old(self).log_view() && final(self).store_view()
                == old(self).store_view() && final(self).store_records()
                == old(self).store_records(),
    {
        if let Some(i) = find_invalid_action(&batch) {
            assert(old(self).log@.is_prefix_of(self.log@));
            return Err(SyncError::InvalidAction(batch[i].action.clone()));
        }
        let ghost bv = batch_view(batch@);
        let ghost log0 = self.log@;
        let ghost store0 = self.store@;
        let position = match self.log.append(duplicate_batch(&batch)) {
            Ok(p) => p,
            Err(e) => {
                assert(self.log@.is_prefix_of(self.log@));
                return Err(e);
            },
        };
        let mut i: usize = 0;
        while i < batch.len()
            invariant
                i <= batch@.len(),
                bv == batch_view(batch@),
                self.log.wf(),
                self.store.wf(),
                self.log@ == log0.push(bv),
                self.store@ == apply_batch(store0, bv.subrange(0, i as int), now),
            decreases batch@.len() - i,
        {
            assert(bv.subrange(0, i + 1).drop_last() =~= bv.subrange(0, i as int));
            let t = &batch[i];
            match parse_action(&t.action) {
                Some(Action::Delete) => {
                    self.store.delete(&t.record_id);
                },
                Some(_) => {
                    self.store.upsert(
                        t.record_id.clone(),
                        t.entity_type.clone(),
                        t.payload.clone(),
                        now,
                    );
                },
                None => {},
            }
            i = i + 1;
        }
        proof {
            assert(bv.subrange(0, bv.len() as int) =~= bv);
            lemma_contents_apply_batch(store0, bv, now);
            assert(self.log@.drop_last() =~= log0);
            assert(log0.is_prefix_of(self.log@)) by {
                assert(self.log@.subrange(0, log0.len() as int) =~= log0);
            }
        }
        Ok(position)
    }

    /// [`Self::ingest`] at the current wall-clock time.
    pub fn ingest_now(&mut self, batch: Vec<Transaction>) -> (r: Result<u64, SyncError>)
        requires
            old(self).wf(),
        ensures
            final(self).wf(),
            old(self).log_view().is_prefix_of(final(self).log_view()),
            match first_invalid(batch_view(batch@)) {
                Some(i) => r matches Err(SyncError::InvalidAction(a)) && a@ == batch@[i].action@,
                None => if old(self).log_view().len() == u64::MAX {
                    r == Err::<u64, SyncError>(SyncError::Persistence)
                } else {
                    r == Ok::<u64, SyncError>((old(self).log_view().len() + 1) as u64)
                },
            },
            r is Ok ==> final(self).log_view() == old(self).log_view().push(batch_view(batch@))
                && exists|now: i64|
                final(self).store_view() == apply_batch(old(self).store_view(), batch_view(batch@), now),
            r matches Ok(p) ==> ingested(old(self).log_view(), final(self).log_view(), p),
            r is Err ==> final(self).log_view() == old(self).log_view() && final(self).store_view()
                == old(self).store_view(),
    {
        let now = utc_now_seconds();
        self.ingest(batch, now)
    }

    /// The highest position in `[from, to]` (0 if none) and every transaction
    /// of the batches there, in position order, then in batch order. An unset
    /// bound leaves that side open.
    pub fn fetch_range(&self, from: Option<u64>, to: Option<u64>) -> (r: (u64, Vec<Transaction>))
        requires
            self.wf(),
        ensures
            r.0 == range_result(self.log_view(), from, to).0,
            batch_view(r.1@) == range_result(self.log_view(), from, to).1,
    {
        let entries = self.log.read_range(from, to);
        let ghost lo = range_lo(from);
        let ghost hi = range_hi(to, self.log@.len() as int);
        let ghost eb = entries_batches(entries@);
        let mut out: Vec<Transaction> = Vec::new();
        let mut horizon: u64 = 0;
        let mut i: usize = 0;
        while i < entries.len()
            invariant
                i <= entries@.len(),
                eb == entries_batches(entries@),
                batch_view(out@) == flatten(eb.subrange(0, i as int)),
                i > 0 ==> horizon == entries@[i - 1].position,
                i == 0 ==> horizon == 0,
            decreases entries@.len() - i,
        {
            assert(eb.subrange(0, i + 1).drop_last() =~= eb.subrange(0, i as int));
            let batch = &entries[i].batch;
            let mut j: usize = 0;
            let ghost base = out@;
            while j < batch.len()
                invariant
                    j <= batch@.len(),
                    batch_view(out@) == batch_view(base) + batch_view(batch@).subrange(0, j as int),
                decreases batch@.len() - j,
            {
                let ghost before = out@;
                let t = batch[j].duplicate();
                out.push(t);
                assert(batch_view(out@) =~= batch_view(before).push(t@));
                assert(batch_view(base) + batch_view(batch@).subrange(0, j + 1) =~= batch_view(base)
                    + batch_view(batch@).subrange(0, j as int) + seq![batch@[j as int]@]);
                j = j + 1;
            }
            assert(batch_view(batch@).subrange(0, batch@.len() as int) =~= batch_view(batch@));
            assert(eb[i as int] == batch_view(batch@));
            horizon = entries[i].position;
            i = i + 1;
        }
        proof {
            assert(eb.subrange(0, eb.len() as int) =~= eb);
        }
        (horizon, out)
    }

    /// The highest committed position and every current record, grouped by
    /// entity type.
    pub fn bootstrap(&self) -> (r: (u64, Vec<ModelGroup>))
        requires
            self.wf(),
        ensures
            r.0 == self.log_view().len(),
            groups_view(r.1@) == listing(self.store_records()),
    {
        (self.log.max_position(), self.store.list_all())
    }
}

} // verus!
