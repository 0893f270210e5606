use vstd::prelude::*;
use crate::store::{upserted, RecordView};
use crate::transaction::{spec_parse_action, Action, TxView};

verus! {

/// Record id to `(entity_type, payload)`: what a store holds, timestamps aside.
pub type Contents = Map<Seq<char>, (Seq<char>, Seq<char>)>;

/// The effect of one transaction on store contents: create and update upsert,
/// delete removes, an unknown action changes nothing.
pub open spec fn replay_tx(c: Contents, t: TxView) -> Contents {
    match spec_parse_action(t.action) {
        Some(Action::Delete) => c.remove(t.record_id),
        Some(_) => c.insert(t.record_id, (t.entity_type, t.payload)),
        None => c,
    }
}

/// The transactions of `b`, in order, replayed onto `c`.
pub open spec fn replay_batch(c: Contents, b: Seq<TxView>) -> Contents
    decreases b.len(),
{
    if b.len() == 0 {
        c
    } else {
        replay_tx(replay_batch(c, b.drop_last()), b.last())
    }
}

/// A whole log replayed, in position order, onto empty contents.
pub open spec fn replay_log(l: Seq<Seq<TxView>>) -> Contents
    decreases l.len(),
{
    if l.len() == 0 {
        Map::empty()
    } else {
        replay_batch(replay_log(l.drop_last()), l.last())
    }
}

/// The effect of one transaction on a timestamped store at time `now`.
pub open spec fn apply_tx(m: Map<Seq<char>, RecordView>, t: TxView, now: i64) -> Map<
    Seq<char>,
    RecordView,
> {
    match spec_parse_action(t.action) {
        Some(Action::Delete) => m.remove(t.record_id),
        Some(_) => m.insert(
            t.record_id,
            upserted(m, t.record_id, t.entity_type, t.payload, now),
        ),
        None => m,
    }
}

/// A batch applied in order, every transaction at the same instant `now`.
pub open spec fn apply_batch(m: Map<Seq<char>, RecordView>, b: Seq<TxView>, now: i64) -> Map<
    Seq<char>,
    RecordView,
>
    decreases b.len(),
{
    if b.len() == 0 {
        m
    } else {
        apply_tx(apply_batch(m, b.drop_last(), now), b.last(), now)
    }
}

/// A whole log applied to an empty store, batch `i` at time `times[i]`.
pub open spec fn apply_log(l: Seq<Seq<TxView>>, times: Seq<i64>) -> Map<Seq<char>, RecordView>
    decreases l.len(),
{
    if l.len() == 0 {
        Map::empty()
    } else {
        apply_batch(apply_log(l.drop_last(), times), l.last(), times[l.len() - 1])
    }
}

/// A timestamped store with its timestamps dropped.
pub open spec fn contents_of(m: Map<Seq<char>, RecordView>) -> Contents {
    Map::new(|k: Seq<char>| m.contains_key(k), |k: Seq<char>| (m[k].entity_type, m[k].payload))
}

/// Every transaction of every batch of `l`, in order.
pub open spec fn flatten(l: Seq<Seq<TxView>>) -> Seq<TxView>
    decreases l.len(),
{
    if l.len() == 0 {
        Seq::empty()
    } else {
        flatten(l.drop_last()) + l.last()
    }
}

/// Applying a transaction, timestamps aside, is replaying it.
pub proof fn lemma_contents_apply_tx(m: Map<Seq<char>, RecordView>, t: TxView, now: i64)
    ensures
        contents_of(apply_tx(m, t, now)) == replay_tx(contents_of(m), t),
{
    assert(contents_of(apply_tx(m, t, now)) =~= replay_tx(contents_of(m), t));
}

/// Applying a batch, timestamps aside, is replaying it.
pub proof fn lemma_contents_apply_batch(m: Map<Seq<char>, RecordView>, b: Seq<TxView>, now: i64)
    ensures
        contents_of(apply_batch(m, b, now)) == replay_batch(contents_of(m), b),
    decreases b.len(),
{
    if b.len() > 0 {
        lemma_contents_apply_batch(m, b.drop_last(), now);
        lemma_contents_apply_tx(apply_batch(m, b.drop_last(), now), b.last(), now);
    }
}

/// Applying a whole log, at any instants, is replaying it.
pub proof fn lemma_contents_apply_log(l: Seq<Seq<TxView>>, times: Seq<i64>)
    requires
        times.len() == l.len(),
    ensures
        contents_of(apply_log(l, times)) == replay_log(l),
    decreases l.len(),
{
    if l.len() == 0 {
        assert(contents_of(Map::empty()) =~= Map::<Seq<char>, (Seq<char>, Seq<char>)>::empty());
    } else {
        lemma_contents_apply_log(l.drop_last(), times.drop_last());
        lemma_apply_log_times(l.drop_last(), times, times.drop_last());
        lemma_contents_apply_batch(apply_log(l.drop_last(), times), l.last(), times[l.len() - 1]);
    }
}

/// Only the first `l.len()` instants matter.
proof fn lemma_apply_log_times(l: Seq<Seq<TxView>>, t1: Seq<i64>, t2: Seq<i64>)
    requires
        l.len() <= t1.len(),
        l.len() <= t2.len(),
        forall|i: int| 0 <= i < l.len() ==> t1[i] == t2[i],
    ensures
        apply_log(l, t1) == apply_log(l, t2),
    decreases l.len(),
{
    if l.len() > 0 {
        lemma_apply_log_times(l.drop_last(), t1, t2);
    }
}

} // verus!
