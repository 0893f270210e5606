use vstd::prelude::*;
use crate::engine::{range_result, ingested, SyncEngine};
use crate::tx_log::{range_hi, range_lo};
use crate::replay::{apply_tx, apply_batch, apply_log, contents_of, flatten, lemma_contents_apply_log};
use crate::store::{listing, represents, select, types_of, Record, RecordView};
use crate::transaction::{spec_parse_action, Action, TxView};

verus! {

/// Some group of `gs` with entity type `t` lists record `id` with payload `p`.
pub open spec fn listed(
    gs: Seq<(Seq<char>, Seq<(Seq<char>, Seq<char>)>)>,
    t: Seq<char>,
    id: Seq<char>,
    p: Seq<char>,
) -> bool {
    exists|i: int, k: int|
        0 <= i < gs.len() && gs[i].0 == t && 0 <= k < gs[i].1.len() && #[trigger] gs[i].1[k] == (
        id,
        p,
    )
}

proof fn lemma_select_member(s: Seq<Record>, t: Seq<char>, k: int)
    requires
        0 <= k < select(s, t).len(),
    ensures
        exists|j: int|
            0 <= j < s.len() && s[j].entity_type@ == t && (s[j].record_id@, s[j].payload@)
                == #[trigger] select(s, t)[k],
    decreases s.len(),
{
    let p = select(s.drop_last(), t);
    if k < p.len() {
        lemma_select_member(s.drop_last(), t, k);
        let j = choose|j: int|
            0 <= j < s.drop_last().len() && s.drop_last()[j].entity_type@ == t && (
            s.drop_last()[j].record_id@,
            s.drop_last()[j].payload@,
        ) == #[trigger] p[k];
        assert(s[j] == s.drop_last()[j]);
    } else {
        assert(s[s.len() - 1] == s.last());
    }
}

proof fn lemma_select_complete(s: Seq<Record>, t: Seq<char>, j: int)
    requires
        0 <= j < s.len(),
        s[j].entity_type@ == t,
    ensures
        exists|k: int|
            0 <= k < select(s, t).len() && #[trigger] select(s, t)[k] == (
            s[j].record_id@,
            s[j].payload@,
        ),
    decreases s.len(),
{
    let p = select(s.drop_last(), t);
    if j == s.len() - 1 {
        assert(select(s, t)[p.len() as int] == (s[j].record_id@, s[j].payload@));
    } else {
        assert(s.drop_last()[j] == s[j]);
        lemma_select_complete(s.drop_last(), t, j);
        let k = choose|k: int| 0 <= k < p.len() && #[trigger] p[k] == (s[j].record_id@, s[j].payload@);
        assert(select(s, t)[k] == p[k]);
    }
}

proof fn lemma_types_complete(s: Seq<Record>, j: int)
    requires
        0 <= j < s.len(),
    ensures
        types_of(s).contains(s[j].entity_type@),
    decreases s.len(),
{
    let p = types_of(s.drop_last());
    if j == s.len() - 1 {
        if !p.contains(s.last().entity_type@) {
            assert(types_of(s)[p.len() as int] == s.last().entity_type@);
        }
    } else {
        assert(s.drop_last()[j] == s[j]);
        lemma_types_complete(s.drop_last(), j);
        let i = choose|i: int| 0 <= i < p.len() && p[i] == s[j].entity_type@;
        assert(types_of(s)[i] == p[i]);
    }
}

/// A group of a snapshot lists exactly the records present with that type,
/// each with its current payload.
pub proof fn lemma_listing(
    s: Seq<Record>,
    m: Map<Seq<char>, RecordView>,
    t: Seq<char>,
    id: Seq<char>,
    p: Seq<char>,
)
    requires
        represents(s, m),
    ensures
        listed(listing(s), t, id, p) <==> (contents_of(m).contains_key(id) && contents_of(m)[id]
            == (t, p)),
{
    let gs = listing(s);
    if listed(gs, t, id, p) {
        let (i, k) = choose|i: int, k: int|
            0 <= i < gs.len() && gs[i].0 == t && 0 <= k < gs[i].1.len() && #[trigger] gs[i].1[k]
                == (id, p);
        assert(gs[i].1 == select(s, t));
        lemma_select_member(s, t, k);
        let j = choose|j: int|
            0 <= j < s.len() && s[j].entity_type@ == t && (s[j].record_id@, s[j].payload@)
                == #[trigger] select(s, t)[k];
        assert(m.contains_key(s[j].record_id@));
    }
    if contents_of(m).contains_key(id) && contents_of(m)[id] == (t, p) {
        assert(m.contains_key(id));
        let j = choose|j: int| 0 <= j < s.len() && s[j].record_id@ == id;
        assert(m[s[j].record_id@] == s[j].entry());
        lemma_types_complete(s, j);
        let i = choose|i: int| 0 <= i < types_of(s).len() && types_of(s)[i] == t;
        lemma_select_complete(s, t, j);
        let k = choose|k: int|
            0 <= k < select(s, t).len() && #[trigger] select(s, t)[k] == (
            s[j].record_id@,
            s[j].payload@,
        );
        assert(gs[i].1[k] == (id, p));
    }
}

/// Replaying the whole log into a fresh store, at any instants, gives the
/// records that the engine holds, and a snapshot lists exactly those.
pub proof fn law_replay_determinism(e: &SyncEngine, times: Seq<i64>)
    requires
        e.wf(),
        times.len() == e.log_view().len(),
    ensures
        contents_of(apply_log(e.log_view(), times)) == contents_of(e.store_view()),
        forall|t: Seq<char>, id: Seq<char>, p: Seq<char>|
            #[trigger] listed(listing(e.store_records()), t, id, p) <==> (contents_of(
                apply_log(e.log_view(), times),
            ).contains_key(id) && contents_of(apply_log(e.log_view(), times))[id] == (t, p)),
{
    e.lemma_wf();
    lemma_contents_apply_log(e.log_view(), times);
    assert forall|t: Seq<char>, id: Seq<char>, p: Seq<char>|
        #[trigger] listed(listing(e.store_records()), t, id, p) <==> (contents_of(
            apply_log(e.log_view(), times),
        ).contains_key(id) && contents_of(apply_log(e.log_view(), times))[id] == (t, p)) by {
        lemma_listing(e.store_records(), e.store_view(), t, id, p);
    }
}

/// A later successful ingest returns a strictly greater position than an
/// earlier one.
pub proof fn law_position_monotonic(
    l0: Seq<Seq<TxView>>,
    l1: Seq<Seq<TxView>>,
    l2: Seq<Seq<TxView>>,
    l3: Seq<Seq<TxView>>,
    p: u64,
    q: u64,
)
    requires
        ingested(l0, l1, p),
        l1.is_prefix_of(l2),
        ingested(l2, l3, q),
    ensures
        p < q,
{
}

/// Reading the range from position 1 to the highest position returns every
/// committed transaction, batch after batch, in commit order.
pub proof fn law_range_completeness(l: Seq<Seq<TxView>>)
    requires
        l.len() <= u64::MAX,
    ensures
        range_result(l, Some(1u64), Some(l.len() as u64)) == (l.len() as int, flatten(l)),
{
    assert(range_lo(Some(1u64)) == 0);
    assert(range_hi(Some(l.len() as u64), l.len() as int) == l.len());
    assert(l.subrange(0, l.len() as int) =~= l);
    if l.len() == 0 {
        assert(flatten(l) == Seq::<TxView>::empty());
    }
}

/// Creating the same record twice leaves one record, with the last payload,
/// the first instant as its creation time and the second as its update time.
pub proof fn law_upsert_idempotent(m: Map<Seq<char>, RecordView>, t: TxView, n1: i64, n2: i64)
    requires
        spec_parse_action(t.action) == Some(Action::Create),
        !m.contains_key(t.record_id),
    ensures
        ({
            let m2 = apply_batch(apply_batch(m, seq![t], n1), seq![t], n2);
            &&& m2.dom() == m.dom().insert(t.record_id)
            &&& m2[t.record_id].payload == t.payload
            &&& m2[t.record_id].entity_type == t.entity_type
            &&& m2[t.record_id].created_at == n1
            &&& m2[t.record_id].updated_at == n2
        }),
{
    let b = seq![t];
    assert(b.drop_last() =~= Seq::<TxView>::empty());
    assert(b.last() == t);
    let m1 = apply_batch(m, b, n1);
    assert(apply_batch(m, b.drop_last(), n1) == m);
    assert(m1 == apply_tx(m, t, n1));
    assert(apply_batch(m1, b.drop_last(), n2) == m1);
    let m2 = apply_batch(m1, b, n2);
    assert(m2 == apply_tx(m1, t, n2));
    assert(m2.dom() =~= m.dom().insert(t.record_id));
}

/// After a record is created and then deleted, no snapshot lists it.
pub proof fn law_tombstone(
    m: Map<Seq<char>, RecordView>,
    c: TxView,
    d: TxView,
    n1: i64,
    n2: i64,
    s: Seq<Record>,
)
    requires
        spec_parse_action(c.action) == Some(Action::Create),
        spec_parse_action(d.action) == Some(Action::Delete),
        d.record_id == c.record_id,
        represents(s, apply_batch(apply_batch(m, seq![c], n1), seq![d], n2)),
    ensures
        forall|t: Seq<char>, p: Seq<char>| !#[trigger] listed(listing(s), t, c.record_id, p),
{
    let bc = seq![c];
    let bd = seq![d];
    assert(bc.drop_last() =~= Seq::<TxView>::empty());
    assert(bd.drop_last() =~= Seq::<TxView>::empty());
    assert(bc.last() == c && bd.last() == d);
    let m1 = apply_batch(m, bc, n1);
    assert(apply_batch(m, bc.drop_last(), n1) == m);
    assert(apply_batch(m1, bd.drop_last(), n2) == m1);
    let m2 = apply_batch(m1, bd, n2);
    assert(m2 == apply_tx(m1, d, n2));
    assert(!m2.contains_key(c.record_id));
    assert forall|t: Seq<char>, p: Seq<char>| !#[trigger] listed(listing(s), t, c.record_id, p) by {
        lemma_listing(s, m2, t, c.record_id, p);
    }
}

} // verus!
