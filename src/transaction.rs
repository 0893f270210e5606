use vstd::prelude::*;
use vstd::string::StringExecFns;

verus! {

/// What a transaction does to its record.
#[derive(Debug, Clone, Copy, PartialEq, Eq, Structural)]
pub enum Action {
    Create,
    Update,
    Delete,
}

/// One client mutation. `payload` holds the record's value as opaque
/// structured text; it is carried through unchanged and never interpreted.
#[derive(Debug)]
pub struct Transaction {
    pub entity_type: String,
    pub record_id: String,
    pub action: String,
    pub payload: String,
}

/// Mathematical view of a [`Transaction`].
pub ghost struct TxView {
    pub entity_type: Seq<char>,
    pub record_id: Seq<char>,
    pub action: Seq<char>,
    pub payload: Seq<char>,
}

impl View for Transaction {
    type V = TxView;

    open spec fn view(&self) -> TxView {
        TxView {
            entity_type: self.entity_type@,
            record_id: self.record_id@,
            action: self.action@,
            payload: self.payload@,
        }
    }
}

impl Transaction {
    /// A field-by-field copy.
    pub fn duplicate(&self) -> (r: Transaction)
        ensures
            r@ == self@,
    {
        Transaction {
            entity_type: self.entity_type.clone(),
            record_id: self.record_id.clone(),
            action: self.action.clone(),
            payload: self.payload.clone(),
        }
    }
}

/// Copies every transaction of a batch.
pub fn duplicate_batch(b: &Vec<Transaction>) -> (r: Vec<Transaction>)
    ensures
        batch_view(r@) == batch_view(b@),
{
    let mut out: Vec<Transaction> = Vec::new();
    let mut i: usize = 0;
    while i < b.len()
        invariant
            i <= b@.len(),
            batch_view(out@) == batch_view(b@.subrange(0, i as int)),
        decreases b@.len() - i,
    {
        let ghost before = out@;
        let t = b[i].duplicate();
        assert(batch_view(before).len() == i);
        out.push(t);
        assert forall|k: int| 0 <= k <= i implies #[trigger] batch_view(out@)[k] == batch_view(
            b@.subrange(0, i + 1),
        )[k] by {
            if k < i {
                assert(batch_view(before)[k] == batch_view(b@.subrange(0, i as int))[k]);
            }
        }
        assert(batch_view(out@) =~= batch_view(b@.subrange(0, i + 1)));
        i = i + 1;
    }
    assert(b@.subrange(0, b@.len() as int) =~= b@);
    out
}

/// The action named by `a`, if it names one.
pub open spec fn spec_parse_action(a: Seq<char>) -> Option<Action> {
    if a == "create"@ {
        Some(Action::Create)
    } else if a == "update"@ {
        Some(Action::Update)
    } else if a == "delete"@ {
        Some(Action::Delete)
    } else {
        None
    }
}

pub open spec fn is_valid_action(a: Seq<char>) -> bool {
    spec_parse_action(a) is Some
}

/// Index of the first transaction of `b` whose action is not recognised.
pub open spec fn first_invalid(b: Seq<TxView>) -> Option<int> {
    if exists|i: int| 0 <= i < b.len() && !is_valid_action(#[trigger] b[i].action) {
        Some(
            choose|i: int|
                0 <= i < b.len() && !is_valid_action(#[trigger] b[i].action) && forall|j: int|
                    0 <= j < i ==> is_valid_action(#[trigger] b[j].action),
        )
    } else {
        None
    }
}

pub open spec fn batch_view(b: Seq<Transaction>) -> Seq<TxView> {
    b.map_values(|t: Transaction| t@)
}

/// Parses an action name; `None` for anything but the three known names.
pub fn parse_action(a: &String) -> (r: Option<Action>)
    ensures
        r == spec_parse_action(a@),
{
    let create = String::from_str("create");
    let update = String::from_str("update");
    let delete = String::from_str("delete");
    if *a == create {
        Some(Action::Create)
    } else if *a == update {
        Some(Action::Update)
    } else if *a == delete {
        Some(Action::Delete)
    } else {
        None
    }
}

/// Finds the first transaction of `batch` whose action is not recognised.
pub fn find_invalid_action(batch: &Vec<Transaction>) -> (r: Option<usize>)
    ensures
        match r {
            Some(i) => i < batch@.len() && !is_valid_action(batch@[i as int].action@)
                && forall|j: int| 0 <= j < i ==> is_valid_action(#[trigger] batch@[j].action@),
            None => forall|j: int|
                0 <= j < batch@.len() ==> is_valid_action(#[trigger] batch@[j].action@),
        },
        r matches Some(i) ==> first_invalid(batch_view(batch@)) == Some(i as int),
        r is None <==> first_invalid(batch_view(batch@)) is None,
{
    let mut i: usize = 0;
    while i < batch.len()
        invariant
            i <= batch@.len(),
            forall|j: int| 0 <= j < i ==> is_valid_action(#[trigger] batch@[j].action@),
        decreases batch@.len() - i,
    {
        if parse_action(&batch[i].action).is_none() {
            proof {
                let bv = batch_view(batch@);
                assert(!is_valid_action(bv[i as int].action));
                let k = first_invalid(bv).unwrap();
                assert(forall|j: int| 0 <= j < i ==> is_valid_action(#[trigger] bv[j].action));
                if k < i {
                    assert(is_valid_action(bv[k].action));
                } else if k > i {
                    assert(is_valid_action(bv[i as int].action));
                }
            }
            return Some(i);
        }
        i = i + 1;
    }
    proof {
        let bv = batch_view(batch@);
        assert forall|j: int| 0 <= j < bv.len() implies is_valid_action(#[trigger] bv[j].action) by {
            assert(is_valid_action(batch@[j].action@));
        }
    }
    None
}

} // verus!
