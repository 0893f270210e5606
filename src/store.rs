use vstd::prelude::*;

verus! {

/// A materialized record.
#[derive(Debug)]
pub struct Record {
    pub record_id: String,
    pub entity_type: String,
    pub payload: String,
    pub created_at: i64,
    pub updated_at: i64,
}

/// What the store knows of a record, keyed by its id.
pub ghost struct RecordView {
    pub entity_type: Seq<char>,
    pub payload: Seq<char>,
    pub created_at: i64,
    pub updated_at: i64,
}

impl Record {
    pub open spec fn entry(&self) -> RecordView {
        RecordView {
            entity_type: self.entity_type@,
            payload: self.payload@,
            created_at: self.created_at,
            updated_at: self.updated_at,
        }
    }
}

/// No two records share an id.
pub open spec fn unique_ids(s: Seq<Record>) -> bool {
    forall|i: int, j: int|
        0 <= i < s.len() && 0 <= j < s.len() && i != j ==> #[trigger] s[i].record_id@
            != #[trigger] s[j].record_id@
}

/// `s` holds exactly the records of `m`, one per id.
pub open spec fn represents(s: Seq<Record>, m: Map<Seq<char>, RecordView>) -> bool {
    &&& unique_ids(s)
    &&& forall|i: int|
        0 <= i < s.len() ==> m.contains_key(#[trigger] s[i].record_id@) && m[s[i].record_id@]
            == s[i].entry()
    &&& forall|k: Seq<char>|
        #[trigger] m.contains_key(k) ==> exists|i: int| 0 <= i < s.len() && s[i].record_id@ == k
}

/// The record an upsert leaves under its id.
pub open spec fn upserted(
    m: Map<Seq<char>, RecordView>,
    id: Seq<char>,
    entity_type: Seq<char>,
    payload: Seq<char>,
    now: i64,
) -> RecordView {
    RecordView {
        entity_type,
        payload,
        created_at: if m.contains_key(id) {
            m[id].created_at
        } else {
            now
        },
        updated_at: now,
    }
}

/// One record as a snapshot lists it.
#[derive(Debug)]
pub struct ModelData {
    pub record_id: String,
    pub payload: String,
}

/// The records of one entity type.
#[derive(Debug)]
pub struct ModelGroup {
    pub entity_type: String,
    pub records: Vec<ModelData>,
}

impl View for ModelData {
    type V = (Seq<char>, Seq<char>);

    open spec fn view(&self) -> (Seq<char>, Seq<char>) {
        (self.record_id@, self.payload@)
    }
}

impl View for ModelGroup {
    type V = (Seq<char>, Seq<(Seq<char>, Seq<char>)>);

    open spec fn view(&self) -> (Seq<char>, Seq<(Seq<char>, Seq<char>)>) {
        (self.entity_type@, data_view(self.records@))
    }
}

pub open spec fn data_view(v: Seq<ModelData>) -> Seq<(Seq<char>, Seq<char>)> {
    v.map_values(|d: ModelData| d@)
}

pub open spec fn strings_view(v: Seq<String>) -> Seq<Seq<char>> {
    v.map_values(|s: String| s@)
}

pub open spec fn groups_view(v: Seq<ModelGroup>) -> Seq<(Seq<char>, Seq<(Seq<char>, Seq<char>)>)> {
    v.map_values(|g: ModelGroup| g@)
}

/// The entity types of `s`, each once, in order of first appearance.
pub open spec fn types_of(s: Seq<Record>) -> Seq<Seq<char>>
    decreases s.len(),
{
    if s.len() == 0 {
        Seq::empty()
    } else {
        let p = types_of(s.drop_last());
        if p.contains(s.last().entity_type@) {
            p
        } else {
            p.push(s.last().entity_type@)
        }
    }
}

/// `(id, payload)` of each record of `s` whose type is `t`, in order.
pub open spec fn select(s: Seq<Record>, t: Seq<char>) -> Seq<(Seq<char>, Seq<char>)>
    decreases s.len(),
{
    if s.len() == 0 {
        Seq::empty()
    } else {
        let p = select(s.drop_last(), t);
        if s.last().entity_type@ == t {
            p.push((s.last().record_id@, s.last().payload@))
        } else {
            p
        }
    }
}

/// The records of `s` grouped by entity type.
pub open spec fn listing(s: Seq<Record>) -> Seq<(Seq<char>, Seq<(Seq<char>, Seq<char>)>)> {
    types_of(s).map_values(|t: Seq<char>| (t, select(s, t)))
}

fn contains_string(v: &Vec<String>, t: &String) -> (r: bool)
    ensures
        r == strings_view(v@).contains(t@),
{
    let mut i: usize = 0;
    while i < v.len()
        invariant
            i <= v@.len(),
            forall|j: int| 0 <= j < i ==> #[trigger] v@[j]@ != t@,
        decreases v@.len() - i,
    {
        if v[i] == *t {
            assert(strings_view(v@)[i as int] == t@);
            return true;
        }
        i = i + 1;
    }
    proof {
        if strings_view(v@).contains(t@) {
            let j = choose|j: int| 0 <= j < v@.len() && strings_view(v@)[j] == t@;
            assert(v@[j]@ == t@);
        }
    }
    false
}

fn copy_string(s: &String) -> (r: String)
    ensures
        r@ == s@,
{
    s.clone()
}

/// `(id, payload)` of each record of type `t`, in store order.
fn collect_type(s: &Vec<Record>, t: &String) -> (r: Vec<ModelData>)
    ensures
        data_view(r@) == select(s@, t@),
{
    let mut out: Vec<ModelData> = Vec::new();
    let mut i: usize = 0;
    while i < s.len()
        invariant
            i <= s@.len(),
            data_view(out@) == select(s@.subrange(0, i as int), t@),
        decreases s@.len() - i,
    {
        let ghost before = out@;
        assert(s@.subrange(0, i + 1).drop_last() =~= s@.subrange(0, i as int));
        if s[i].entity_type == *t {
            let d = ModelData { record_id: copy_string(&s[i].record_id), payload: copy_string(&s[i].payload) };
            out.push(d);
            assert(data_view(out@) =~= data_view(before).push(d@));
        }
        i = i + 1;
    }
    assert(s@.subrange(0, s@.len() as int) =~= s@);
    out
}

/// Current value of every record, keyed by record id.
pub struct PayloadStore {
    records: Vec<Record>,
    contents: Ghost<Map<Seq<char>, RecordView>>,
}

impl View for PayloadStore {
    type V = Map<Seq<char>, RecordView>;

    closed spec fn view(&self) -> Map<Seq<char>, RecordView> {
        self.contents@
    }
}

impl PayloadStore {
    pub closed spec fn wf(&self) -> bool {
        represents(self.records@, self.contents@)
    }

    /// The records in the store's own (stable) order.
    pub closed spec fn records(&self) -> Seq<Record> {
        self.records@
    }

    /// The record order agrees with the keyed view.
    pub proof fn lemma_records(&self)
        requires
            self.wf(),
        ensures
            represents(self.records(), self@),
    {
    }

    pub fn new() -> (r: PayloadStore)
        ensures
            r.wf(),
            r@ == Map::<Seq<char>, RecordView>::empty(),
            r.records().len() == 0,
    {
        PayloadStore { records: Vec::new(), contents: Ghost(Map::empty()) }
    }

    /// Position in `records` of the record with this id, if any.
    fn find(&self, record_id: &String) -> (r: Option<usize>)
        requires
            self.wf(),
        ensures
            match r {
                Some(i) => i < self.records@.len() && self.records@[i as int].record_id@
                    == record_id@,
                None => !self@.contains_key(record_id@),
            },
    {
        let mut i: usize = 0;
        while i < self.records.len()
            invariant
                self.wf(),
                i <= self.records@.len(),
                forall|j: int| 0 <= j < i ==> #[trigger] self.records@[j].record_id@ != record_id@,
            decreases self.records@.len() - i,
        {
            if self.records[i].record_id == *record_id {
                return Some(i);
            }
            i = i + 1;
        }
        None
    }

    /// The record with this id, if present.
    pub fn get(&self, record_id: &String) -> (r: Option<&Record>)
        requires
            self.wf(),
        ensures
            r is None <==> !self@.contains_key(record_id@),
            r matches Some(rec) ==> rec.record_id@ == record_id@ && rec.entry()
                == self@[record_id@],
    {
        match self.find(record_id) {
            Some(i) => Some(&self.records[i]),
            None => None,
        }
    }

    /// Inserts the record, or replaces its type, payload and `updated_at`
    /// while keeping its `created_at`.
    pub fn upsert(&mut self, record_id: String, entity_type: String, payload: String, now: i64)
        requires
            old(self).wf(),
        ensures
            final(self).wf(),
            final(self)@ == old(self)@.insert(
                record_id@,
                upserted(old(self)@, record_id@, entity_type@, payload@, now),
            ),
    {
        let ghost m = self.contents@;
        let ghost id = record_id@;
        let ghost e = upserted(m, record_id@, entity_type@, payload@, now);
        match self.find(&record_id) {
            Some(i) => {
                let created_at = self.records[i].created_at;
                let ghost s = self.records@;
                self.records.remove(i);
                let rec = Record { record_id, entity_type, payload, created_at, updated_at: now };
                self.records.insert(i, rec);
                self.contents = Ghost(m.insert(id, e));
                proof {
                    let s2 = self.records@;
                    assert(s2 =~= s.update(i as int, rec));
                    assert forall|j: int| 0 <= j < s2.len() && j != i implies #[trigger] s2[j].record_id@
                        != id by {
                        assert(s2[j] == s[j]);
                    }
                    assert forall|k: Seq<char>| #[trigger] self.contents@.contains_key(k) implies exists|j: int|
                        0 <= j < s2.len() && s2[j].record_id@ == k by {
                        if k != id {
                            let j = choose|j: int| 0 <= j < s.len() && s[j].record_id@ == k;
                            assert(s2[j] == s[j]);
                        } else {
                            assert(s2[i as int].record_id@ == k);
                        }
                    }
                }
            },
            None => {
                let ghost s = self.records@;
                let rec = Record { record_id, entity_type, payload, created_at: now, updated_at: now };
                self.records.push(rec);
                self.contents = Ghost(m.insert(id, e));
                proof {
                    let s2 = self.records@;
                    assert(s2 =~= s.push(rec));
                    assert forall|j: int| 0 <= j < s.len() implies #[trigger] s2[j].record_id@ != id by {
                        assert(m.contains_key(s[j].record_id@));
                    }
                    assert forall|k: Seq<char>| #[trigger] self.contents@.contains_key(k) implies exists|j: int|
                        0 <= j < s2.len() && s2[j].record_id@ == k by {
                        if k != id {
                            let j = choose|j: int| 0 <= j < s.len() && s[j].record_id@ == k;
                            assert(s2[j] == s[j]);
                        } else {
                            assert(s2[s.len() as int].record_id@ == k);
                        }
                    }
                }
            },
        }
    }

    /// Removes the record with this id; does nothing if there is none.
    pub fn delete(&mut self, record_id: &String)
        requires
            old(self).wf(),
        ensures
            final(self).wf(),
            final(self)@ == old(self)@.remove(record_id@),
    {
        let ghost m = self.contents@;
        let ghost id = record_id@;
        match self.find(record_id) {
            Some(i) => {
                let ghost s = self.records@;
                self.records.remove(i);
                self.contents = Ghost(m.remove(id));
                proof {
                    let s2 = self.records@;
                    assert forall|j: int| 0 <= j < s2.len() implies #[trigger] s2[j].record_id@ != id
                        && s2[j].record_id@ == (if j < i { s[j] } else { s[j + 1] }).record_id@ by {
                        if j < i {
                            assert(s2[j] == s[j]);
                        } else {
                            assert(s2[j] == s[j + 1]);
                        }
                    }
                    assert forall|k: Seq<char>| #[trigger] self.contents@.contains_key(k) implies exists|j: int|
                        0 <= j < s2.len() && s2[j].record_id@ == k by {
                        let j = choose|j: int| 0 <= j < s.len() && s[j].record_id@ == k;
                        assert(j != i);
                        if j < i {
                            assert(s2[j] == s[j]);
                        } else {
                            assert(s2[j - 1] == s[j]);
                        }
                    }
                }
            },
            None => {
                proof {
                    assert(m.remove(id) =~= m);
                }
            },
        }
    }
    /// Every current record, grouped by entity type. Groups come in order of
    /// the first record of each type; records within a group in store order.
    pub fn list_all(&self) -> (r: Vec<ModelGroup>)
        ensures
            groups_view(r@) == listing(self.records()),
    {
        let mut types: Vec<String> = Vec::new();
        let mut i: usize = 0;
        while i < self.records.len()
            invariant
                i <= self.records@.len(),
                strings_view(types@) == types_of(self.records@.subrange(0, i as int)),
            decreases self.records@.len() - i,
        {
            let ghost before = types@;
            assert(self.records@.subrange(0, i + 1).drop_last() =~= self.records@.subrange(0, i as int));
            if !contains_string(&types, &self.records[i].entity_type) {
                let t = copy_string(&self.records[i].entity_type);
                types.push(t);
                assert(strings_view(types@) =~= strings_view(before).push(t@));
            }
            i = i + 1;
        }
        assert(self.records@.subrange(0, self.records@.len() as int) =~= self.records@);
        let ghost ts = types_of(self.records@);
        let mut groups: Vec<ModelGroup> = Vec::new();
        let mut k: usize = 0;
        while k < types.len()
            invariant
                k <= types@.len(),
                strings_view(types@) == ts,
                ts.len() == types@.len(),
                ts == types_of(self.records@),
                groups_view(groups@) == listing(self.records@).subrange(0, k as int),
            decreases types@.len() - k,
        {
            let ghost before = groups@;
            let records = collect_type(&self.records, &types[k]);
            let g = ModelGroup { entity_type: copy_string(&types[k]), records };
            assert(ts[k as int] == types@[k as int]@);
            let ghost gv = g@;
            assert(gv == listing(self.records@)[k as int]);
            assert(groups_view(before).len() == k);
            groups.push(g);
            assert(groups@[k as int]@ == gv);
            assert(groups_view(groups@)[k as int] == gv);
            assert(groups_view(groups@) =~= listing(self.records@).subrange(0, k + 1));
            k = k + 1;
        }
        assert(listing(self.records@).subrange(0, k as int) =~= listing(self.records@));
        groups
    }
}

} // verus!
