//! The document store's state: collections of documents, and the native
//! command semantics (insert, bulk update, bulk delete, array set-add and
//! array removal) that the write executor drives.
//!
//! A document of a model is kept as one slot per model field: a slot is
//! `None` when the document does not carry the field at all.
use vstd::prelude::*;
use crate::error::{self};
use crate::model::{FieldArity, ModelDef, ModelV, scalar_fits};
use crate::value::{DocValue, DocValueV, Value, ValueV, value_eq};

verus! {

/// A native fault of the store.
#[derive(Clone, Copy, Debug, PartialEq, Eq, Structural)]
pub enum StoreFault {
    /// A primary key collided with an existing document.
    DuplicateKey,
    /// An atomic modifier met a field of an incompatible shape.
    TypeMismatch,
    /// An atomic increment left the integer range.
    Overflow,
    /// The generated-id space is exhausted.
    IdExhausted,
}

/// The backend's well-known conflict (duplicate key) error code.
pub const DUPLICATE_KEY_CODE: i64 = 11000;

/// The error code a fault carries in a bulk-write failure report.
pub open spec fn spec_fault_code(f: StoreFault) -> int {
    match f {
        StoreFault::DuplicateKey => 11000,
        StoreFault::TypeMismatch => 14,
        StoreFault::Overflow => 2,
        StoreFault::IdExhausted => 2,
    }
}

/// The error code of a fault, as the backend reports it per failed document.
pub fn fault_code(f: StoreFault) -> (r: i64)
    ensures
        r as int == spec_fault_code(f),
{
    match f {
        StoreFault::DuplicateKey => 11000,
        StoreFault::TypeMismatch => 14,
        StoreFault::Overflow => 2,
        StoreFault::IdExhausted => 2,
    }
}

/// The typed connector error a fault surfaces as: a duplicate key is a
/// conflict, anything else passes through as a backend failure.
pub open spec fn fault_error(f: StoreFault) -> error::Error {
    match f {
        StoreFault::DuplicateKey => error::Error::Conflict,
        StoreFault::TypeMismatch => error::Error::Backend(error::BackendFault::TypeMismatch),
        StoreFault::Overflow => error::Error::Backend(error::BackendFault::Overflow),
        StoreFault::IdExhausted => error::Error::Backend(error::BackendFault::IdExhausted),
    }
}

/// Turns a store fault into the connector's typed error.
pub fn fault_to_error(f: StoreFault) -> (r: error::Error)
    ensures
        r == fault_error(f),
    {
    match f {
        StoreFault::DuplicateKey => error::Error::Conflict,
        StoreFault::TypeMismatch => error::Error::Backend(error::BackendFault::TypeMismatch),
        StoreFault::Overflow => error::Error::Backend(error::BackendFault::Overflow),
        StoreFault::IdExhausted => error::Error::Backend(error::BackendFault::IdExhausted),
    }
}

/// One document: one slot per model field, `None` where the field is absent.
#[derive(Clone, Debug)]
pub struct Document {
    pub fields: Vec<Option<DocValue>>,
}

/// Mathematical model of a document.
pub type DocV = Seq<Option<DocValueV>>;

/// The view of one field slot.
pub open spec fn slot_view(o: Option<DocValue>) -> Option<DocValueV> {
    match o {
        Option::Some(d) => Option::Some(d@),
        Option::None => Option::None,
    }
}

impl View for Document {
    type V = DocV;

    open spec fn view(&self) -> DocV {
        self.fields@.map_values(|o: Option<DocValue>| slot_view(o))
    }
}

/// One collection: its backend name, the id-generation counter, and its
/// documents in insertion order.
#[derive(Clone, Debug)]
pub struct Collection {
    pub name: String,
    pub next_id: i64,
    pub records: Vec<Document>,
}

/// Mathematical model of a collection.
#[verifier::ext_equal]
pub struct CollectionV {
    pub name: Seq<char>,
    pub next_id: int,
    pub records: Seq<DocV>,
}

impl View for Collection {
    type V = CollectionV;

    open spec fn view(&self) -> CollectionV {
        CollectionV {
            name: self.name@,
            next_id: self.next_id as int,
            records: self.records@.map_values(|d: Document| d@),
        }
    }
}

/// The whole document store.
#[derive(Clone, Debug)]
pub struct Store {
    pub collections: Vec<Collection>,
}

/// Mathematical model of the store.
pub type StoreV = Seq<CollectionV>;

impl View for Store {
    type V = StoreV;

    open spec fn view(&self) -> StoreV {
        self.collections@.map_values(|c: Collection| c@)
    }
}

/// Views of a sequence of concrete values.
pub open spec fn vals_view(s: Seq<Value>) -> Seq<ValueV> {
    s.map_values(|e: Value| e@)
}

/// Whether a sequence holds this value.
pub open spec fn seq_contains(xs: Seq<ValueV>, v: ValueV) -> bool {
    exists|i: int| 0 <= i < xs.len() && xs[i] == v
}

/// Decides membership of a value among concrete values.
pub fn contains_value(xs: &Vec<Value>, v: &Value) -> (r: bool)
    ensures
        r == seq_contains(vals_view(xs@), v@),
{
    let n = xs.len();
    let mut i: usize = 0;
    while i < n
        invariant
            n == xs@.len(),
            0 <= i <= n,
            forall|j: int| 0 <= j < i ==> vals_view(xs@)[j] != v@,
        decreases n - i,
    {
        assert(vals_view(xs@)[i as int] == xs@[i as int]@);
        if value_eq(&xs[i], v) {
            return true;
        }
        i += 1;
    }
    false
}

/// Copies a value; the copy has the same view.
pub fn value_dup(v: &Value) -> (r: Value)
    ensures
        r@ == v@,
{
    match v {
        Value::Null => Value::Null,
        Value::Bool(b) => Value::Bool(*b),
        Value::Int(i) => Value::Int(*i),
        Value::Str(s) => Value::Str(s.clone()),
    }
}

/// Copies a sequence of values; the copy has the same view.
pub fn values_dup(xs: &Vec<Value>) -> (r: Vec<Value>)
    ensures
        vals_view(r@) == vals_view(xs@),
{
    let n = xs.len();
    let mut out: Vec<Value> = Vec::new();
    let mut i: usize = 0;
    while i < n
        invariant
            n == xs@.len(),
            0 <= i <= n,
            out@.len() == i,
            forall|j: int| 0 <= j < i ==> out@[j]@ == xs@[j]@,
        decreases n - i,
    {
        out.push(value_dup(&xs[i]));
        i += 1;
    }
    assert(vals_view(out@) =~= vals_view(xs@));
    out
}

/// Copies a document field value; the copy has the same view.
pub fn doc_value_dup(d: &DocValue) -> (r: DocValue)
    ensures
        r@ == d@,
{
    match d {
        DocValue::Scalar(v) => DocValue::Scalar(value_dup(v)),
        DocValue::Array(vs) => {
            let r = DocValue::Array(values_dup(vs));
            assert(r@ == d@);
            r
        },
    }
}

/// Copies a document; the copy has the same view.
pub fn doc_dup(d: &Document) -> (r: Document)
    ensures
        r@ == d@,
{
    let n = d.fields.len();
    let mut out: Vec<Option<DocValue>> = Vec::new();
    let mut i: usize = 0;
    while i < n
        invariant
            n == d.fields@.len(),
            0 <= i <= n,
            out@.len() == i,
            forall|j: int|
                0 <= j < i ==> d@[j] == (match out@[j] {
                    Option::Some(v) => Option::Some(v@),
                    Option::None => Option::None,
                }),
        decreases n - i,
    {
        let slot = match &d.fields[i] {
            Option::Some(v) => Option::Some(doc_value_dup(v)),
            Option::None => Option::None,
        };
        out.push(slot);
        i += 1;
    }
    let r = Document { fields: out };
    assert(r@ =~= d@);
    r
}

/// Whether a document is well formed for a model: one slot per field, and a
/// concrete (non-null) scalar primary key.
pub open spec fn doc_wf(m: ModelV, d: DocV) -> bool {
    &&& d.len() == m.fields.len()
    &&& match d[m.id_field] {
        Option::Some(DocValueV::Scalar(v)) => !(v is Null),
        _ => false,
    }
}

/// The primary key value of a well-formed document.
pub open spec fn doc_id(m: ModelV, d: DocV) -> ValueV {
    match d[m.id_field] {
        Option::Some(DocValueV::Scalar(v)) => v,
        _ => ValueV::Null,
    }
}

/// Whether the collection holds a document with this primary key.
pub open spec fn coll_has_id(m: ModelV, c: CollectionV, v: ValueV) -> bool {
    exists|i: int| 0 <= i < c.records.len() && doc_id(m, c.records[i]) == v
}

/// Well-formedness of a collection under its model: every document well
/// formed, primary keys pairwise distinct, and integer keys below the
/// generation counter.
pub open spec fn coll_wf(m: ModelV, c: CollectionV) -> bool {
    &&& m.wf()
    &&& c.name == m.db_name
    &&& 1 <= c.next_id <= i64::MAX
    &&& forall|i: int| 0 <= i < c.records.len() ==> doc_wf(m, #[trigger] c.records[i])
    &&& forall|i: int, j: int|
        0 <= i < j < c.records.len() ==> doc_id(m, c.records[i]) != doc_id(m, c.records[j])
    &&& forall|i: int|
        0 <= i < c.records.len() ==> match doc_id(m, #[trigger] c.records[i]) {
            ValueV::Int(k) => k < c.next_id,
            _ => true,
        }
}

/// Whether the store holds a collection of this name.
pub open spec fn store_has(s: StoreV, name: Seq<char>) -> bool {
    exists|i: int| 0 <= i < s.len() && s[i].name == name
}

/// The index of the collection with this name.
pub open spec fn store_index(s: StoreV, name: Seq<char>) -> int {
    choose|i: int| 0 <= i < s.len() && s[i].name == name
}

/// Well-formedness of the store: collection names pairwise distinct.
pub open spec fn store_wf(s: StoreV) -> bool {
    forall|i: int, j: int| 0 <= i < j < s.len() ==> s[i].name != s[j].name
}

/// What a model asks of the store: if its collection exists, that collection
/// is well formed under the model.
pub open spec fn store_coll_wf(s: StoreV, m: ModelV) -> bool {
    store_has(s, m.db_name) ==> coll_wf(m, s[store_index(s, m.db_name)])
}

impl Store {
    /// A store with no collections.
    pub fn new() -> (r: Store)
        ensures
            r@ == Seq::<CollectionV>::empty(),
    {
        Store { collections: Vec::new() }
    }

    /// Finds the collection with the given name, if any.
    pub fn find_collection(&self, name: &str) -> (r: Option<usize>)
        requires
            store_wf(self@),
        ensures
            match r {
                Some(i) => store_has(self@, name@) && i == store_index(self@, name@)
                    && 0 <= i < self@.len() && self@[i as int].name == name@,
                None => !store_has(self@, name@),
            },
    {
        let name_owned = name.to_owned();
        let n = self.collections.len();
        let mut i: usize = 0;
        while i < n
            invariant
                name_owned@ == name@,
                n == self@.len(),
                0 <= i <= n,
                store_wf(self@),
                forall|j: int| 0 <= j < i ==> self@[j].name != name@,
            decreases n - i,
        {
            if self.collections[i].name.eq(&name_owned) {
                proof {
                    assert(self@[i as int] == self.collections@[i as int]@);
                    assert(self@[i as int].name == name@);
                    assert(store_has(self@, name@));
                    let k = store_index(self@, name@);
                    assert(0 <= k < self@.len() && self@[k].name == name@);
                    assert(k == i as int);
                }
                return Some(i);
            }
            i += 1;
        }
        None
    }
}

/// Finds the collection a model writes to, creating an empty one on first
/// use, as the backend does; returns its index.
pub fn collection_for(st: &mut Store, model: &ModelDef) -> (i: usize)
    requires
        store_wf(old(st)@),
        store_coll_wf(old(st)@, model@),
        model@.wf(),
    ensures
        store_wf(final(st)@),
        i < final(st)@.len(),
        final(st)@[i as int].name == model@.db_name,
        coll_wf(model@, final(st)@[i as int]),
        store_has(old(st)@, model@.db_name) ==> final(st)@ == old(st)@ && i as int == store_index(
            old(st)@,
            model@.db_name,
        ),
        !store_has(old(st)@, model@.db_name) ==> {
            &&& final(st)@ == old(st)@.push(final(st)@[i as int])
            &&& i == old(st)@.len()
            &&& final(st)@[i as int].records.len() == 0
            &&& final(st)@[i as int].next_id == 1
        },
{
    match st.find_collection(model.db_name.as_str()) {
        Option::Some(i) => i,
        Option::None => {
            let i = st.collections.len();
            let coll = Collection { name: model.db_name.clone(), next_id: 1, records: Vec::new() };
            proof {
                assert(coll@.records =~= Seq::<DocV>::empty());
            }
            st.collections.push(coll);
            proof {
                assert(final(st)@ =~= old(st)@.push(st.collections@[i as int]@));
            }
            i
        },
    }
}

/// Finds the document with this primary key, if any.
pub fn find_record_by_id(coll: &Collection, model: &ModelDef, id: &Value) -> (r: Option<usize>)
    requires
        coll_wf(model@, coll@),
    ensures
        match r {
            Some(i) => 0 <= i < coll@.records.len() && doc_id(model@, coll@.records[i as int])
                == id@,
            None => !coll_has_id(model@, coll@, id@),
        },
{
    let n = coll.records.len();
    let mut i: usize = 0;
    while i < n
        invariant
            n == coll@.records.len(),
            0 <= i <= n,
            coll_wf(model@, coll@),
            forall|j: int| 0 <= j < i ==> doc_id(model@, coll@.records[j]) != id@,
        decreases n - i,
    {
        assert(doc_wf(model@, coll@.records[i as int]));
        assert(coll@.records[i as int] == coll.records@[i as int]@);
        let rec = &coll.records[i];
        assert(rec.fields@.len() == rec@.len());
        match &rec.fields[model.id_field] {
            Option::Some(DocValue::Scalar(v)) => {
                if value_eq(v, id) {
                    return Some(i);
                }
            },
            _ => {
                assert(false);
            },
        }
        i += 1;
    }
    None
}

/// Readiness of a document for insertion: one slot per model field, and the
/// primary key slot either absent (the key will be generated) or a concrete
/// scalar.
pub open spec fn insert_ready(m: ModelV, d: DocV) -> bool {
    &&& d.len() == m.fields.len()
    &&& match d[m.id_field] {
        Option::Some(DocValueV::Scalar(v)) => !(v is Null),
        Option::Some(_) => false,
        Option::None => true,
    }
}

/// How an explicit integer key raises the generation counter past itself.
pub open spec fn spec_bump(n: int, v: ValueV) -> int {
    match v {
        ValueV::Int(k) => if k + 1 > n {
            k + 1
        } else {
            n
        },
        _ => n,
    }
}

/// One native insert: the new collection and the acknowledged primary key,
/// or the fault. An absent key is generated from the counter, monotonically.
pub open spec fn spec_insert_one(m: ModelV, c: CollectionV, d: DocV) -> Result<
    (CollectionV, ValueV),
    StoreFault,
> {
    match d[m.id_field] {
        Option::Some(DocValueV::Scalar(v)) => if coll_has_id(m, c, v) {
            Err(StoreFault::DuplicateKey)
        } else if (match v {
            ValueV::Int(k) => k >= i64::MAX as int,
            _ => false,
        }) {
            Err(StoreFault::IdExhausted)
        } else {
            Ok(
                (
                    CollectionV {
                        name: c.name,
                        next_id: spec_bump(c.next_id, v),
                        records: c.records.push(d),
                    },
                    v,
                ),
            )
        },
        Option::None => if c.next_id >= i64::MAX as int {
            Err(StoreFault::IdExhausted)
        } else {
            let id = ValueV::Int(c.next_id);
            let stored = d.update(m.id_field, Option::Some(DocValueV::Scalar(id)));
            Ok(
                (
                    CollectionV {
                        name: c.name,
                        next_id: c.next_id + 1,
                        records: c.records.push(stored),
                    },
                    id,
                ),
            )
        },
        _ => Err(StoreFault::TypeMismatch),
    }
}

/// A successful insert preserves well-formedness and acknowledges a key that
/// was fresh before and present afterwards, on the new last document.
pub proof fn lemma_insert_one_wf(m: ModelV, c: CollectionV, d: DocV)
    requires
        coll_wf(m, c),
        insert_ready(m, d),
    ensures
        match spec_insert_one(m, c, d) {
            Ok((c2, id)) => {
                &&& coll_wf(m, c2)
                &&& !coll_has_id(m, c, id)
                &&& coll_has_id(m, c2, id)
                &&& c2.records.len() == c.records.len() + 1
                &&& doc_id(m, c2.records.last()) == id
                &&& !(id is Null)
            },
            Err(_) => true,
        },
{
    match spec_insert_one(m, c, d) {
        Ok((c2, id)) => {
            assert(doc_wf(m, c2.records.last()));
            assert forall|i: int, j: int| 0 <= i < j < c2.records.len() implies doc_id(
                m,
                c2.records[i],
            ) != doc_id(m, c2.records[j]) by {
                if j < c.records.len() {
                } else {
                    assert(c2.records[j] == c2.records.last());
                    assert(doc_id(m, c2.records[j]) == id);
                    match d[m.id_field] {
                        Option::Some(DocValueV::Scalar(_)) => {
                            assert(!coll_has_id(m, c, id));
                        },
                        Option::None => {
                            assert(id == ValueV::Int(c.next_id));
                        },
                        _ => {},
                    }
                }
            }
            assert(coll_has_id(m, c2, id)) by {
                assert(doc_id(m, c2.records[c2.records.len() - 1]) == id);
            }
        },
        Err(_) => {},
    }
}

/// Performs one native insert, returning the acknowledged primary key.
pub fn insert_one(coll: &mut Collection, model: &ModelDef, doc: Document) -> (r: Result<
    Value,
    StoreFault,
>)
    requires
        coll_wf(model@, old(coll)@),
        insert_ready(model@, doc@),
    ensures
        match r {
            Ok(id) => spec_insert_one(model@, old(coll)@, doc@) == Ok::<_, StoreFault>(
                (final(coll)@, id@),
            ),
            Err(f) => final(coll)@ == old(coll)@ && spec_insert_one(model@, old(coll)@, doc@)
                == Err::<(CollectionV, ValueV), _>(f),
        },
{
    let explicit: Option<Value> = match &doc.fields[model.id_field] {
        Option::Some(DocValue::Scalar(v)) => Option::Some(value_dup(v)),
        Option::None => Option::None,
        _ => {
            proof {
                assert(false);
            }
            Option::None
        },
    };
    match explicit {
        Option::Some(v) => {
            if find_record_by_id(coll, model, &v).is_some() {
                proof {
                    assert(coll_has_id(model@, coll@, v@));
                }
                return Err(StoreFault::DuplicateKey);
            }
            if let Value::Int(k) = &v {
                if *k == i64::MAX {
                    return Err(StoreFault::IdExhausted);
                }
                if *k + 1 > coll.next_id {
                    coll.next_id = *k + 1;
                }
            }
            coll.records.push(doc);
            proof {
                assert(final(coll)@.records =~= old(coll)@.records.push(doc@));
            }
            Ok(v)
        },
        Option::None => {
            if coll.next_id == i64::MAX {
                return Err(StoreFault::IdExhausted);
            }
            let k = coll.next_id;
            coll.next_id = k + 1;
            let mut doc = doc;
            let ghost doc0 = doc@;
            doc.fields[model.id_field] = Option::Some(DocValue::Scalar(Value::Int(k)));
            proof {
                assert(doc@ =~= doc0.update(
                    model@.id_field,
                    Option::Some(DocValueV::Scalar(ValueV::Int(k as int))),
                ));
            }
            let ghost stored = doc@;
            coll.records.push(doc);
            proof {
                assert(final(coll)@.records =~= old(coll)@.records.push(stored));
            }
            Ok(Value::Int(k))
        },
    }
}

/// One native update operation: the destination field and the action.
#[derive(Clone, Debug)]
pub enum UpdateAction {
    /// Set the field to this scalar.
    SetScalar(Value),
    /// Set the field to this array.
    SetList(Vec<Value>),
    /// Add to an integer field; creates an absent field.
    Inc(i64),
    /// Add each member not yet present to an array field, in order.
    AddToSet(Vec<Value>),
    /// Remove every member equal to one of these values from an array field.
    PullAll(Vec<Value>),
    /// Append one member to an array field; creates an absent field.
    PushOne(Value),
}

/// Mathematical model of an `UpdateAction`.
#[verifier::ext_equal]
pub enum UpdateActionV {
    SetScalar(ValueV),
    SetList(Seq<ValueV>),
    Inc(int),
    AddToSet(Seq<ValueV>),
    PullAll(Seq<ValueV>),
    PushOne(ValueV),
}

impl View for UpdateAction {
    type V = UpdateActionV;

    open spec fn view(&self) -> UpdateActionV {
        match self {
            UpdateAction::SetScalar(v) => UpdateActionV::SetScalar(v@),
            UpdateAction::SetList(vs) => UpdateActionV::SetList(vals_view(vs@)),
            UpdateAction::Inc(k) => UpdateActionV::Inc(*k as int),
            UpdateAction::AddToSet(vs) => UpdateActionV::AddToSet(vals_view(vs@)),
            UpdateAction::PullAll(vs) => UpdateActionV::PullAll(vals_view(vs@)),
            UpdateAction::PushOne(v) => UpdateActionV::PushOne(v@),
        }
    }
}

/// One native update operation aimed at a model field.
#[derive(Clone, Debug)]
pub struct UpdateOp {
    /// Index of the destination field in the model.
    pub field: usize,
    pub action: UpdateAction,
}

/// Mathematical model of an `UpdateOp`.
#[verifier::ext_equal]
pub struct UpdateOpV {
    pub field: int,
    pub action: UpdateActionV,
}

impl View for UpdateOp {
    type V = UpdateOpV;

    open spec fn view(&self) -> UpdateOpV {
        UpdateOpV { field: self.field as int, action: self.action@ }
    }
}

/// Views of a sequence of update operations.
pub open spec fn ops_view(s: Seq<UpdateOp>) -> Seq<UpdateOpV> {
    s.map_values(|o: UpdateOp| o@)
}

/// Validity of update operations against a model: every destination is a
/// model field other than the immutable primary key.
pub open spec fn ops_valid(m: ModelV, ops: Seq<UpdateOpV>) -> bool {
    forall|i: int|
        0 <= i < ops.len() ==> 0 <= (#[trigger] ops[i]).field < m.fields.len() && ops[i].field
            != m.id_field
}

/// Set-semantics array addition: each value is appended at most once, in
/// order, and pre-existing members are untouched.
pub open spec fn add_to_set_seq(xs: Seq<ValueV>, vs: Seq<ValueV>) -> Seq<ValueV>
    decreases vs.len(),
{
    if vs.len() == 0 {
        xs
    } else {
        let prior = add_to_set_seq(xs, vs.drop_last());
        if seq_contains(prior, vs.last()) {
            prior
        } else {
            prior.push(vs.last())
        }
    }
}

/// Array removal: keeps, in order, exactly the members equal to none of the
/// given values.
pub open spec fn pull_all_seq(xs: Seq<ValueV>, vs: Seq<ValueV>) -> Seq<ValueV>
    decreases xs.len(),
{
    if xs.len() == 0 {
        Seq::empty()
    } else {
        let prior = pull_all_seq(xs.drop_last(), vs);
        if seq_contains(vs, xs.last()) {
            prior
        } else {
            prior.push(xs.last())
        }
    }
}

/// What one action does to one field slot.
pub open spec fn spec_apply_action(cur: Option<DocValueV>, a: UpdateActionV) -> Result<
    Option<DocValueV>,
    StoreFault,
> {
    match a {
        UpdateActionV::SetScalar(v) => Ok(Option::Some(DocValueV::Scalar(v))),
        UpdateActionV::SetList(vs) => Ok(Option::Some(DocValueV::Array(vs))),
        UpdateActionV::Inc(k) => match cur {
            Option::None => Ok(Option::Some(DocValueV::Scalar(ValueV::Int(k)))),
            Option::Some(DocValueV::Scalar(ValueV::Int(n))) => if i64::MIN as int <= n + k
                <= i64::MAX as int {
                Ok(Option::Some(DocValueV::Scalar(ValueV::Int(n + k))))
            } else {
                Err(StoreFault::Overflow)
            },
            _ => Err(StoreFault::TypeMismatch),
        },
        UpdateActionV::AddToSet(vs) => match cur {
            Option::None => Ok(Option::Some(DocValueV::Array(add_to_set_seq(Seq::empty(), vs)))),
            Option::Some(DocValueV::Array(xs)) => Ok(
                Option::Some(DocValueV::Array(add_to_set_seq(xs, vs))),
            ),
            _ => Err(StoreFault::TypeMismatch),
        },
        UpdateActionV::PullAll(vs) => match cur {
            Option::None => Ok(Option::None),
            Option::Some(DocValueV::Array(xs)) => Ok(
                Option::Some(DocValueV::Array(pull_all_seq(xs, vs))),
            ),
            _ => Err(StoreFault::TypeMismatch),
        },
        UpdateActionV::PushOne(v) => match cur {
            Option::None => Ok(Option::Some(DocValueV::Array(seq![v]))),
            Option::Some(DocValueV::Array(xs)) => Ok(Option::Some(DocValueV::Array(xs.push(v)))),
            _ => Err(StoreFault::TypeMismatch),
        },
    }
}

/// What a list of operations does to one document, applied in order.
pub open spec fn spec_apply_ops(d: DocV, ops: Seq<UpdateOpV>) -> Result<DocV, StoreFault>
    decreases ops.len(),
{
    if ops.len() == 0 {
        Ok(d)
    } else {
        match spec_apply_ops(d, ops.drop_last()) {
            Err(f) => Err(f),
            Ok(d2) => {
                let op = ops.last();
                if 0 <= op.field < d2.len() {
                    match spec_apply_action(d2[op.field], op.action) {
                        Err(f) => Err(f),
                        Ok(nv) => Ok(d2.update(op.field, nv)),
                    }
                } else {
                    Err(StoreFault::TypeMismatch)
                }
            },
        }
    }
}

/// Once a prefix of the operations faults, the whole list faults the same way.
pub proof fn lemma_apply_ops_err_prefix(d: DocV, ops: Seq<UpdateOpV>, i: int)
    requires
        0 <= i <= ops.len(),
        spec_apply_ops(d, ops.take(i)) is Err,
    ensures
        spec_apply_ops(d, ops) == spec_apply_ops(d, ops.take(i)),
    decreases ops.len() - i,
{
    if i == ops.len() {
        assert(ops.take(i) =~= ops);
    } else {
        assert(ops.take(i + 1).drop_last() =~= ops.take(i));
        assert(spec_apply_ops(d, ops.take(i + 1)) == spec_apply_ops(d, ops.take(i)));
        lemma_apply_ops_err_prefix(d, ops, i + 1);
    }
}

/// Valid operations keep a document's length and its primary key slot.
pub proof fn lemma_apply_ops_preserves(m: ModelV, d: DocV, ops: Seq<UpdateOpV>)
    requires
        ops_valid(m, ops),
        0 <= m.id_field < d.len(),
    ensures
        match spec_apply_ops(d, ops) {
            Ok(d2) => d2.len() == d.len() && d2[m.id_field] == d[m.id_field],
            Err(_) => true,
        },
    decreases ops.len(),
{
    if ops.len() > 0 {
        assert(ops_valid(m, ops.drop_last())) by {
            assert(forall|i: int|
                0 <= i < ops.drop_last().len() ==> ops.drop_last()[i] == ops[i]);
        }
        lemma_apply_ops_preserves(m, d, ops.drop_last());
        assert(ops[ops.len() - 1] == ops.last());
    }
}

/// Applies one action to one field slot.
pub fn apply_action(cur: &Option<DocValue>, action: &UpdateAction) -> (r: Result<
    Option<DocValue>,
    StoreFault,
>)
    ensures
        match r {
            Ok(nv) => spec_apply_action(slot_view(*cur), action@) == Ok::<_, StoreFault>(
                slot_view(nv),
            ),
            Err(f) => spec_apply_action(slot_view(*cur), action@) == Err::<Option<DocValueV>, _>(
                f,
            ),
        },
{
    match action {
        UpdateAction::SetScalar(v) => Ok(Option::Some(DocValue::Scalar(value_dup(v)))),
        UpdateAction::SetList(vs) => Ok(Option::Some(DocValue::Array(values_dup(vs)))),
        UpdateAction::Inc(k) => match cur {
            Option::None => Ok(Option::Some(DocValue::Scalar(Value::Int(*k)))),
            Option::Some(DocValue::Scalar(Value::Int(n))) => match n.checked_add(*k) {
                Option::Some(s) => Ok(Option::Some(DocValue::Scalar(Value::Int(s)))),
                Option::None => Err(StoreFault::Overflow),
            },
            _ => Err(StoreFault::TypeMismatch),
        },
        UpdateAction::AddToSet(vs) => match cur {
            Option::None => {
                let empty: Vec<Value> = Vec::new();
                let r = add_to_set(&empty, vs);
                assert(vals_view(empty@) =~= Seq::<ValueV>::empty());
                Ok(Option::Some(DocValue::Array(r)))
            },
            Option::Some(DocValue::Array(xs)) => Ok(
                Option::Some(DocValue::Array(add_to_set(xs, vs))),
            ),
            _ => Err(StoreFault::TypeMismatch),
        },
        UpdateAction::PullAll(vs) => match cur {
            Option::None => Ok(Option::None),
            Option::Some(DocValue::Array(xs)) => Ok(
                Option::Some(DocValue::Array(pull_all(xs, vs))),
            ),
            _ => Err(StoreFault::TypeMismatch),
        },
        UpdateAction::PushOne(v) => match cur {
            Option::None => {
                let mut ys: Vec<Value> = Vec::new();
                ys.push(value_dup(v));
                proof {
                    assert(vals_view(ys@) =~= seq![v@]);
                }
                Ok(Option::Some(DocValue::Array(ys)))
            },
            Option::Some(DocValue::Array(xs)) => {
                let mut ys = values_dup(xs);
                let ghost before = vals_view(ys@);
                ys.push(value_dup(v));
                proof {
                    assert(vals_view(ys@) =~= before.push(v@));
                }
                Ok(Option::Some(DocValue::Array(ys)))
            },
            _ => Err(StoreFault::TypeMismatch),
        },
    }
}

/// Adds each value not yet present to the array, in order.
pub fn add_to_set(xs: &Vec<Value>, vs: &Vec<Value>) -> (r: Vec<Value>)
    ensures
        vals_view(r@) == add_to_set_seq(vals_view(xs@), vals_view(vs@)),
{
    let mut out = values_dup(xs);
    let n = vs.len();
    let mut i: usize = 0;
    while i < n
        invariant
            n == vs@.len(),
            0 <= i <= n,
            vals_view(out@) == add_to_set_seq(vals_view(xs@), vals_view(vs@).take(i as int)),
        decreases n - i,
    {
        proof {
            assert(vals_view(vs@).take(i + 1).drop_last() =~= vals_view(vs@).take(i as int));
            assert(vals_view(vs@).take(i + 1).last() == vs@[i as int]@);
        }
        if !contains_value(&out, &vs[i]) {
            let ghost before = vals_view(out@);
            out.push(value_dup(&vs[i]));
            proof {
                assert(vals_view(out@) =~= before.push(vs@[i as int]@));
            }
        }
        i += 1;
    }
    proof {
        assert(vals_view(vs@).take(n as int) =~= vals_view(vs@));
    }
    out
}

/// Removes every member equal to one of the given values, keeping order.
pub fn pull_all(xs: &Vec<Value>, vs: &Vec<Value>) -> (r: Vec<Value>)
    ensures
        vals_view(r@) == pull_all_seq(vals_view(xs@), vals_view(vs@)),
{
    let mut out: Vec<Value> = Vec::new();
    let n = xs.len();
    let mut i: usize = 0;
    proof {
        assert(vals_view(out@) =~= Seq::<ValueV>::empty());
    }
    while i < n
        invariant
            n == xs@.len(),
            0 <= i <= n,
            vals_view(out@) == pull_all_seq(vals_view(xs@).take(i as int), vals_view(vs@)),
        decreases n - i,
    {
        proof {
            assert(vals_view(xs@).take(i + 1).drop_last() =~= vals_view(xs@).take(i as int));
            assert(vals_view(xs@).take(i + 1).last() == xs@[i as int]@);
        }
        if !contains_value(vs, &xs[i]) {
            let ghost before = vals_view(out@);
            out.push(value_dup(&xs[i]));
            proof {
                assert(vals_view(out@) =~= before.push(xs@[i as int]@));
            }
        }
        i += 1;
    }
    proof {
        assert(vals_view(xs@).take(n as int) =~= vals_view(xs@));
    }
    out
}

/// Applies a list of operations to a copy of one document.
pub fn apply_ops_doc(d: &Document, ops: &Vec<UpdateOp>) -> (r: Result<Document, StoreFault>)
    ensures
        match r {
            Ok(d2) => spec_apply_ops(d@, ops_view(ops@)) == Ok::<_, StoreFault>(d2@),
            Err(f) => spec_apply_ops(d@, ops_view(ops@)) == Err::<DocV, _>(f),
        },
{
    let mut cur = doc_dup(d);
    let n = ops.len();
    let mut i: usize = 0;
    while i < n
        invariant
            n == ops@.len(),
            0 <= i <= n,
            spec_apply_ops(d@, ops_view(ops@).take(i as int)) == Ok::<_, StoreFault>(cur@),
        decreases n - i,
    {
        proof {
            assert(ops_view(ops@).take(i + 1).drop_last() =~= ops_view(ops@).take(i as int));
            assert(ops_view(ops@).take(i + 1).last() == ops@[i as int]@);
        }
        let op = &ops[i];
        if op.field >= cur.fields.len() {
            proof {
                lemma_apply_ops_err_prefix(d@, ops_view(ops@), i + 1);
            }
            return Err(StoreFault::TypeMismatch);
        }
        match apply_action(&cur.fields[op.field], &op.action) {
            Ok(nv) => {
                let ghost before = cur@;
                cur.fields[op.field] = nv;
                proof {
                    assert(cur@ =~= before.update(op@.field, slot_view(cur.fields@[op.field as int])));
                }
            },
            Err(f) => {
                proof {
                    lemma_apply_ops_err_prefix(d@, ops_view(ops@), i + 1);
                }
                return Err(f);
            },
        }
        i += 1;
    }
    proof {
        assert(ops_view(ops@).take(n as int) =~= ops_view(ops@));
    }
    Ok(cur)
}

/// How many documents of these carry one of the given primary keys.
pub open spec fn count_matching(m: ModelV, recs: Seq<DocV>, ids: Seq<ValueV>) -> nat
    decreases recs.len(),
{
    if recs.len() == 0 {
        0
    } else {
        count_matching(m, recs.drop_last(), ids) + (if seq_contains(
            ids,
            doc_id(m, recs.last()),
        ) {
            1nat
        } else {
            0nat
        })
    }
}

/// One native bulk update filtered by "primary key among these ids": the new
/// documents and the matched count, or the first fault.
pub open spec fn spec_update_many(
    m: ModelV,
    recs: Seq<DocV>,
    ids: Seq<ValueV>,
    ops: Seq<UpdateOpV>,
) -> Result<(Seq<DocV>, nat), StoreFault>
    decreases recs.len(),
{
    if recs.len() == 0 {
        Ok((Seq::empty(), 0))
    } else {
        match spec_update_many(m, recs.drop_last(), ids, ops) {
            Err(f) => Err(f),
            Ok((rs, k)) => {
                let d = recs.last();
                if seq_contains(ids, doc_id(m, d)) {
                    match spec_apply_ops(d, ops) {
                        Err(f) => Err(f),
                        Ok(d2) => Ok((rs.push(d2), k + 1)),
                    }
                } else {
                    Ok((rs.push(d), k))
                }
            },
        }
    }
}

/// Once a prefix of the documents faults, the whole bulk update faults the
/// same way.
pub proof fn lemma_update_many_err_prefix(
    m: ModelV,
    recs: Seq<DocV>,
    ids: Seq<ValueV>,
    ops: Seq<UpdateOpV>,
    i: int,
)
    requires
        0 <= i <= recs.len(),
        spec_update_many(m, recs.take(i), ids, ops) is Err,
    ensures
        spec_update_many(m, recs, ids, ops) == spec_update_many(m, recs.take(i), ids, ops),
    decreases recs.len() - i,
{
    if i == recs.len() {
        assert(recs.take(i) =~= recs);
    } else {
        assert(recs.take(i + 1).drop_last() =~= recs.take(i));
        assert(spec_update_many(m, recs.take(i + 1), ids, ops) == spec_update_many(
            m,
            recs.take(i),
            ids,
            ops,
        ));
        lemma_update_many_err_prefix(m, recs, ids, ops, i + 1);
    }
}

/// A successful bulk update keeps every document's primary key and
/// well-formedness, and matches exactly the documents keyed by the ids.
pub proof fn lemma_update_many_props(
    m: ModelV,
    recs: Seq<DocV>,
    ids: Seq<ValueV>,
    ops: Seq<UpdateOpV>,
)
    requires
        m.wf(),
        ops_valid(m, ops),
        forall|i: int| 0 <= i < recs.len() ==> doc_wf(m, #[trigger] recs[i]),
    ensures
        match spec_update_many(m, recs, ids, ops) {
            Ok((rs, k)) => {
                &&& rs.len() == recs.len()
                &&& forall|i: int|
                    0 <= i < recs.len() ==> doc_id(m, #[trigger] rs[i]) == doc_id(m, recs[i])
                        && doc_wf(m, rs[i])
                &&& k == count_matching(m, recs, ids)
            },
            Err(_) => true,
        },
    decreases recs.len(),
{
    if recs.len() > 0 {
        assert(forall|i: int|
            0 <= i < recs.drop_last().len() ==> #[trigger] recs.drop_last()[i] == recs[i]);
        lemma_update_many_props(m, recs.drop_last(), ids, ops);
        let d = recs.last();
        assert(d == recs[recs.len() - 1]);
        assert(doc_wf(m, d));
        lemma_apply_ops_preserves(m, d, ops);
    }
}

/// The value of a well-formed document's primary key slot.
pub fn doc_get_id(rec: &Document, model: &ModelDef) -> (r: Value)
    requires
        model@.wf(),
        doc_wf(model@, rec@),
    ensures
        r@ == doc_id(model@, rec@),
{
    assert(rec.fields@.len() == rec@.len());
    match &rec.fields[model.id_field] {
        Option::Some(DocValue::Scalar(v)) => value_dup(v),
        _ => {
            proof {
                assert(false);
            }
            Value::Null
        },
    }
}

/// Performs one native bulk update filtered by "primary key among these
/// ids", applying the operations in order to each matched document; returns
/// the matched count. On a fault, documents matched earlier stay updated, but
/// every document keeps its primary key and the collection its shape.
pub fn update_by_ids(
    coll: &mut Collection,
    model: &ModelDef,
    ids: &Vec<Value>,
    ops: &Vec<UpdateOp>,
) -> (r: Result<u64, StoreFault>)
    requires
        coll_wf(model@, old(coll)@),
        ops_valid(model@, ops_view(ops@)),
    ensures
        final(coll)@.name == old(coll)@.name,
        final(coll)@.next_id == old(coll)@.next_id,
        final(coll)@.records.len() == old(coll)@.records.len(),
        coll_wf(model@, final(coll)@),
        forall|j: int|
            0 <= j < old(coll)@.records.len() ==> doc_id(model@, #[trigger] final(coll)@.records[j])
                == doc_id(model@, old(coll)@.records[j]),
        match r {
            Ok(matched) => spec_update_many(
                model@,
                old(coll)@.records,
                vals_view(ids@),
                ops_view(ops@),
            ) == Ok::<_, StoreFault>((final(coll)@.records, matched as nat)),
            Err(f) => spec_update_many(model@, old(coll)@.records, vals_view(ids@), ops_view(ops@))
                == Err::<(Seq<DocV>, nat), _>(f),
        },
{
    let ghost m = model@;
    let ghost idsv = vals_view(ids@);
    let ghost opsv = ops_view(ops@);
    let n = coll.records.len();
    let mut matched: u64 = 0;
    let mut i: usize = 0;
    proof {
        assert(old(coll)@.records.take(0) =~= Seq::<DocV>::empty());
        assert(coll@.records.take(0) =~= Seq::<DocV>::empty());
    }
    while i < n
        invariant
            coll_wf(m, old(coll)@),
            m == model@,
            idsv == vals_view(ids@),
            opsv == ops_view(ops@),
            ops_valid(m, opsv),
            n == coll@.records.len(),
            n == old(coll)@.records.len(),
            0 <= i <= n,
            matched <= i,
            coll@.name == old(coll)@.name,
            coll@.next_id == old(coll)@.next_id,
            forall|j: int| i <= j < n ==> coll@.records[j] == old(coll)@.records[j],
            spec_update_many(m, old(coll)@.records.take(i as int), idsv, opsv) == Ok::<
                _,
                StoreFault,
            >((coll@.records.take(i as int), matched as nat)),
        decreases n - i,
    {
        proof {
            assert(old(coll)@.records.take(i + 1).drop_last() =~= old(coll)@.records.take(
                i as int,
            ));
            assert(old(coll)@.records.take(i + 1).last() == old(coll)@.records[i as int]);
            assert(doc_wf(m, old(coll)@.records[i as int]));
            assert(coll@.records[i as int] == old(coll)@.records[i as int]);
            assert(coll.records@[i as int]@ == coll@.records[i as int]);
        }
        let ghost prefix = coll@.records.take(i as int);
        let hit = {
            let idv = doc_get_id(&coll.records[i], model);
            contains_value(ids, &idv)
        };
        if hit {
            let updated = match apply_ops_doc(&coll.records[i], ops) {
                Ok(d2) => d2,
                Err(f) => {
                    proof {
                        assert(spec_update_many(m, old(coll)@.records.take(i + 1), idsv, opsv)
                            == Err::<(Seq<DocV>, nat), StoreFault>(f));
                        lemma_update_many_err_prefix(m, old(coll)@.records, idsv, opsv, i + 1);
                        lemma_update_many_props(m, old(coll)@.records.take(i as int), idsv, opsv);
                        assert forall|j: int|
                            0 <= j < n implies doc_id(m, #[trigger] coll@.records[j]) == doc_id(
                            m,
                            old(coll)@.records[j],
                        ) && doc_wf(m, coll@.records[j]) by {
                            if j < i {
                                assert(coll@.records.take(i as int)[j] == coll@.records[j]);
                                assert(old(coll)@.records.take(i as int)[j] == old(
                                    coll,
                                )@.records[j]);
                            }
                        }
                    }
                    return Err(f);
                },
            };
            let ghost before = coll@.records;
            coll.records[i] = updated;
            proof {
                assert(coll@.records =~= before.update(i as int, updated@));
                assert(coll@.records.take(i as int) =~= prefix);
                assert(coll@.records.take(i + 1) =~= prefix.push(updated@));
            }
            matched += 1;
        } else {
            proof {
                assert(coll@.records.take(i + 1) =~= prefix.push(old(coll)@.records[i as int]));
            }
        }
        i += 1;
    }
    proof {
        assert(old(coll)@.records.take(n as int) =~= old(coll)@.records);
        assert(coll@.records.take(n as int) =~= coll@.records);
        lemma_update_many_props(m, old(coll)@.records, idsv, opsv);
    }
    Ok(matched)
}

/// One native bulk delete filtered by "primary key among these ids": the
/// remaining documents in order, and the deleted count.
pub open spec fn spec_delete_many(m: ModelV, recs: Seq<DocV>, ids: Seq<ValueV>) -> (Seq<DocV>, nat)
    decreases recs.len(),
{
    if recs.len() == 0 {
        (Seq::empty(), 0)
    } else {
        let (rs, k) = spec_delete_many(m, recs.drop_last(), ids);
        if seq_contains(ids, doc_id(m, recs.last())) {
            (rs, k + 1)
        } else {
            (rs.push(recs.last()), k)
        }
    }
}

/// A bulk delete removes exactly the documents keyed by the ids: the deleted
/// count is the matched count, nothing matching remains, every survivor is an
/// original document, and well-formedness is kept.
pub proof fn lemma_delete_many_props(m: ModelV, recs: Seq<DocV>, ids: Seq<ValueV>)
    requires
        m.wf(),
        forall|i: int| 0 <= i < recs.len() ==> doc_wf(m, #[trigger] recs[i]),
        forall|i: int, j: int|
            0 <= i < j < recs.len() ==> doc_id(m, recs[i]) != doc_id(m, recs[j]),
    ensures
        ({
            let (rs, k) = spec_delete_many(m, recs, ids);
            &&& rs.len() + k == recs.len()
            &&& k == count_matching(m, recs, ids)
            &&& forall|i: int|
                0 <= i < rs.len() ==> !seq_contains(ids, doc_id(m, #[trigger] rs[i]))
            &&& forall|i: int|
                0 <= i < rs.len() ==> exists|j: int|
                    0 <= j < recs.len() && #[trigger] rs[i] == recs[j]
            &&& forall|i: int| 0 <= i < rs.len() ==> doc_wf(m, #[trigger] rs[i])
            &&& forall|i: int, j: int|
                0 <= i < j < rs.len() ==> doc_id(m, rs[i]) != doc_id(m, rs[j])
        }),
    decreases recs.len(),
{
    if recs.len() > 0 {
        assert(forall|i: int|
            0 <= i < recs.drop_last().len() ==> #[trigger] recs.drop_last()[i] == recs[i]);
        lemma_delete_many_props(m, recs.drop_last(), ids);
        let (rs0, k0) = spec_delete_many(m, recs.drop_last(), ids);
        let d = recs.last();
        assert(d == recs[recs.len() - 1]);
        if !seq_contains(ids, doc_id(m, d)) {
            let rs = rs0.push(d);
            assert forall|i: int|
                0 <= i < rs.len() implies exists|j: int|
                0 <= j < recs.len() && #[trigger] rs[i] == recs[j] by {
                if i < rs0.len() {
                    let j = choose|j: int| 0 <= j < recs.drop_last().len() && rs0[i] == recs.drop_last()[j];
                    assert(rs[i] == recs[j]);
                } else {
                    assert(rs[i] == recs[recs.len() - 1]);
                }
            }
            assert forall|i: int, j: int| 0 <= i < j < rs.len() implies doc_id(m, rs[i]) != doc_id(
                m,
                rs[j],
            ) by {
                if j == rs.len() - 1 {
                    let j0 = choose|j0: int|
                        0 <= j0 < recs.drop_last().len() && rs0[i] == recs.drop_last()[j0];
                    assert(rs[i] == recs[j0]);
                    assert(doc_id(m, recs[j0]) != doc_id(m, recs[recs.len() - 1]));
                }
            }
        }
    }
}

/// Performs one native bulk delete filtered by "primary key among these
/// ids"; returns the backend-reported deleted count.
pub fn delete_by_ids(coll: &mut Collection, model: &ModelDef, ids: &Vec<Value>) -> (deleted: u64)
    requires
        coll_wf(model@, old(coll)@),
    ensures
        final(coll)@.name == old(coll)@.name,
        final(coll)@.next_id == old(coll)@.next_id,
        coll_wf(model@, final(coll)@),
        spec_delete_many(model@, old(coll)@.records, vals_view(ids@)) == (
            final(coll)@.records,
            deleted as nat,
        ),
{
    let ghost m = model@;
    let ghost idsv = vals_view(ids@);
    let n = coll.records.len();
    let mut out: Vec<Document> = Vec::new();
    let mut deleted: u64 = 0;
    let mut i: usize = 0;
    proof {
        assert(out@.map_values(|d: Document| d@) =~= Seq::<DocV>::empty());
    }
    while i < n
        invariant
            coll_wf(m, coll@),
            m == model@,
            idsv == vals_view(ids@),
            n == coll@.records.len(),
            0 <= i <= n,
            deleted <= i,
            spec_delete_many(m, coll@.records.take(i as int), idsv) == (
                out@.map_values(|d: Document| d@),
                deleted as nat,
            ),
        decreases n - i,
    {
        proof {
            assert(coll@.records.take(i + 1).drop_last() =~= coll@.records.take(i as int));
            assert(coll@.records.take(i + 1).last() == coll@.records[i as int]);
            assert(doc_wf(m, coll@.records[i as int]));
        }
        let hit = {
            let idv = doc_get_id(&coll.records[i], model);
            contains_value(ids, &idv)
        };
        if hit {
            deleted += 1;
        } else {
            let ghost before = out@.map_values(|d: Document| d@);
            let kept = doc_dup(&coll.records[i]);
            out.push(kept);
            proof {
                assert(out@.map_values(|d: Document| d@) =~= before.push(
                    coll@.records[i as int],
                ));
            }
        }
        i += 1;
    }
    proof {
        assert(coll@.records.take(n as int) =~= coll@.records);
        lemma_delete_many_props(m, coll@.records, idsv);
    }
    coll.records = out;
    proof {
        assert(final(coll)@.records == spec_delete_many(m, old(coll)@.records, idsv).0);
        let (rs, k) = spec_delete_many(m, old(coll)@.records, idsv);
        assert forall|j: int|
            0 <= j < rs.len() implies match doc_id(m, #[trigger] rs[j]) {
            ValueV::Int(q) => q < final(coll)@.next_id,
            _ => true,
        } by {
            let j0 = choose|j0: int|
                0 <= j0 < old(coll)@.records.len() && rs[j] == old(coll)@.records[j0];
            assert(doc_id(m, old(coll)@.records[j0]) == doc_id(m, rs[j]));
        }
    }
    deleted
}

} // verus!
