use vstd::prelude::*;
use crate::error::SyncError;
use crate::transaction::{batch_view, duplicate_batch, Transaction, TxView};

verus! {

/// A committed batch and the position it was given.
#[derive(Debug)]
pub struct LogEntry {
    pub position: u64,
    pub batch: Vec<Transaction>,
}

pub open spec fn entries_batches(s: Seq<LogEntry>) -> Seq<Seq<TxView>> {
    s.map_values(|e: LogEntry| batch_view(e.batch@))
}

/// Index of the first entry that a range read starting at `from` can return
/// (an unset or zero `from` starts at the first entry).
pub open spec fn range_lo(from: Option<u64>) -> int {
    match from {
        Some(f) => if f == 0 {
            0
        } else {
            f - 1
        },
        None => 0,
    }
}

/// One past the index of the last entry that a range read ending at `to`
/// can return, in a log of `n` entries.
pub open spec fn range_hi(to: Option<u64>, n: int) -> int {
    match to {
        Some(t) => if t < n {
            t as int
        } else {
            n
        },
        None => n,
    }
}

/// Append-only sequence of batches; the entry at index `i` has position `i + 1`.
pub struct TransactionLog {
    entries: Vec<LogEntry>,
}

impl View for TransactionLog {
    type V = Seq<Seq<TxView>>;

    /// The committed batches in position order.
    closed spec fn view(&self) -> Seq<Seq<TxView>> {
        entries_batches(self.entries@)
    }
}

impl TransactionLog {
    pub closed spec fn wf(&self) -> bool {
        &&& self.entries@.len() <= u64::MAX
        &&& forall|i: int|
            0 <= i < self.entries@.len() ==> #[trigger] self.entries@[i].position == i + 1
    }

    pub fn new() -> (r: TransactionLog)
        ensures
            r.wf(),
            r@ == Seq::<Seq<TxView>>::empty(),
    {
        TransactionLog { entries: Vec::new() }
    }

    /// The highest position given so far, or 0 for an empty log.
    pub fn max_position(&self) -> (r: u64)
        requires
            self.wf(),
        ensures
            r == self@.len(),
    {
        self.entries.len() as u64
    }

    /// Appends `batch` at the next position and returns that position. Fails,
    /// adding nothing, when no position is left.
    pub fn append(&mut self, batch: Vec<Transaction>) -> (r: Result<u64, SyncError>)
        requires
            old(self).wf(),
        ensures
            final(self).wf(),
            r is Err <==> old(self)@.len() == u64::MAX,
            match r {
                Ok(p) => p == old(self)@.len() + 1 && final(self)@ == old(self)@.push(
                    batch_view(batch@),
                ),
                Err(e) => e == SyncError::Persistence && final(self)@ == old(self)@,
            },
    {
        let n = self.entries.len() as u64;
        if n == u64::MAX {
            return Err(SyncError::Persistence);
        }
        let position = n + 1;
        let ghost before = self.entries@;
        let ghost bv = batch_view(batch@);
        self.entries.push(LogEntry { position, batch });
        assert(entries_batches(self.entries@) =~= entries_batches(before).push(bv));
        Ok(position)
    }

    /// Copies of the entries whose positions lie in `[from, to]`, in position
    /// order. An unset bound leaves that side open.
    pub fn read_range(&self, from: Option<u64>, to: Option<u64>) -> (r: Vec<LogEntry>)
        requires
            self.wf(),
        ensures
            range_lo(from) < range_hi(to, self@.len() as int) ==> entries_batches(r@)
                == self@.subrange(range_lo(from), range_hi(to, self@.len() as int)),
            range_lo(from) >= range_hi(to, self@.len() as int) ==> r@.len() == 0,
            forall|i: int|
                0 <= i < r@.len() ==> #[trigger] r@[i].position == range_lo(from) + i + 1,
    {
        let n = self.entries.len();
        let lo: usize = match from {
            Some(f) => if f == 0 {
                0
            } else if f - 1 < n as u64 {
                (f - 1) as usize
            } else {
                n
            },
            None => 0,
        };
        let hi: usize = match to {
            Some(t) => if t < n as u64 {
                t as usize
            } else {
                n
            },
            None => n,
        };
        let ghost glo = range_lo(from);
        let ghost ghi = range_hi(to, n as int);
        let mut out: Vec<LogEntry> = Vec::new();
        if lo >= hi {
            return out;
        }
        assert(lo == glo && hi == ghi);
        let mut i: usize = lo;
        while i < hi
            invariant
                lo <= i <= hi <= n == self.entries@.len(),
                self.wf(),
                lo == glo,
                entries_batches(out@) == self@.subrange(lo as int, i as int),
                forall|k: int| 0 <= k < out@.len() ==> #[trigger] out@[k].position == lo + k + 1,
                out@.len() == i - lo,
            decreases hi - i,
        {
            let ghost before = out@;
            let e = LogEntry { position: self.entries[i].position, batch: duplicate_batch(&self.entries[i].batch) };
            out.push(e);
            assert(entries_batches(out@) =~= self@.subrange(lo as int, i + 1));
            i = i + 1;
        }
        out
    }
}

} // verus!
