//! The document-store write executor: translates abstract write operations
//! into native store commands and restores SQL-like guarantees (returned ids,
//! matched counts, bulk insert with duplicate skipping, symmetric relation
//! maintenance) that the native operations do not give directly.
use vstd::prelude::*;
use crate::args::{
    args_has, args_value, args_wf, ArgsV, SelectionResult, SelectionV, WriteArgs, WriteExprV,
};
use crate::error::Error;
use crate::filter::{matches_doc, spec_matches, FilterV, RecordFilter, RecordFilterV};
use crate::model::{scalar_fits, FieldDef, FieldType, FieldV, ModelDef, ModelV, RelationField, RelationV};
use crate::store::{
    coll_wf, delete_by_ids, doc_id, doc_wf, fault_code, fault_error, fault_to_error, insert_one,
    insert_ready, ops_valid, ops_view, slot_view, spec_delete_many, spec_fault_code,
    spec_insert_one, spec_update_many, update_by_ids, vals_view, value_dup, Collection,
    CollectionV, DocV, Document, Store, StoreFault, StoreV, UpdateAction, UpdateActionV, UpdateOp,
    UpdateOpV, DUPLICATE_KEY_CODE,
};
use crate::store::{store_coll_wf, store_has, store_index, store_wf};
use crate::value::{DocValue, DocValueV, Value, ValueV};

verus! {

/// Whether a scalar may stand as a member of an array field of this type:
/// members are concrete, never null.
pub open spec fn member_fits(t: FieldType, v: ValueV) -> bool {
    match v {
        ValueV::Null => false,
        ValueV::Bool(_) => t is Bool,
        ValueV::Int(_) => t is Int,
        ValueV::Str(_) => t is Str,
    }
}

/// Whether an array value fits a field: the field is a list and every member
/// fits its scalar type.
pub open spec fn list_fits(f: FieldV, vs: Seq<ValueV>) -> bool {
    &&& f.arity is List
    &&& forall|i: int| 0 <= i < vs.len() ==> member_fits(f.field_type, #[trigger] vs[i])
}

/// Decides `member_fits`.
pub fn check_member_fits(t: &FieldType, v: &Value) -> (r: bool)
    ensures
        r == member_fits(*t, v@),
{
    match v {
        Value::Null => false,
        Value::Bool(_) => matches!(t, FieldType::Bool),
        Value::Int(_) => matches!(t, FieldType::Int),
        Value::Str(_) => matches!(t, FieldType::Str),
    }
}

/// Decides `list_fits`.
pub fn check_list_fits(f: &FieldDef, vs: &Vec<Value>) -> (r: bool)
    ensures
        r == list_fits(f@, vals_view(vs@)),
{
    if !matches!(f.arity, crate::model::FieldArity::List) {
        return false;
    }
    let n = vs.len();
    let mut i: usize = 0;
    while i < n
        invariant
            n == vs@.len(),
            0 <= i <= n,
            f@.arity is List,
            forall|j: int| 0 <= j < i ==> member_fits(f@.field_type, vals_view(vs@)[j]),
        decreases n - i,
    {
        assert(vals_view(vs@)[i as int] == vs@[i as int]@);
        if !check_member_fits(&f.field_type, &vs[i]) {
            return false;
        }
        i += 1;
    }
    true
}

/// The native field value a literal Write Expression converts to, or `None`
/// when the value does not fit the field.
pub open spec fn spec_convert_literal(f: FieldV, e: WriteExprV) -> Option<DocValueV> {
    match e {
        WriteExprV::Value(v) => if !(f.arity is List) && scalar_fits(f, v) {
            Option::Some(DocValueV::Scalar(v))
        } else {
            Option::None
        },
        WriteExprV::ValueList(vs) => if list_fits(f, vs) {
            Option::Some(DocValueV::Array(vs))
        } else {
            Option::None
        },
        _ => Option::None,
    }
}

/// Converts a literal Write Expression for one field.
pub fn convert_literal(f: &FieldDef, e: &crate::args::WriteExpression) -> (r: Option<DocValue>)
    ensures
        slot_view(r) == spec_convert_literal(f@, e@),
{
    match e {
        crate::args::WriteExpression::Value(v) => {
            if !matches!(f.arity, crate::model::FieldArity::List) && crate::model::check_scalar_fits(
                f,
                v,
            ) {
                Option::Some(DocValue::Scalar(value_dup(v)))
            } else {
                Option::None
            }
        },
        crate::args::WriteExpression::ValueList(vs) => {
            if check_list_fits(f, vs) {
                Option::Some(DocValue::Array(crate::store::values_dup(vs)))
            } else {
                Option::None
            }
        },
        _ => Option::None,
    }
}

/// The document built from a Write Argument Set over the first `n` model
/// fields: exactly the fields present in the set are written, no implicit
/// nulls; a value that does not fit yields the offending field's index.
pub open spec fn spec_build_doc_upto(m: ModelV, a: ArgsV, n: int) -> Result<DocV, int>
    decreases n,
{
    if n <= 0 {
        Ok(Seq::empty())
    } else {
        match spec_build_doc_upto(m, a, n - 1) {
            Err(i) => Err(i),
            Ok(d) => {
                let f = m.fields[n - 1];
                if args_has(a, f.db_name) {
                    match spec_convert_literal(f, args_value(a, f.db_name)) {
                        Option::None => Err(n - 1),
                        Option::Some(dv) => Ok(d.push(Option::Some(dv))),
                    }
                } else {
                    Ok(d.push(Option::None))
                }
            },
        }
    }
}

/// The document built from a Write Argument Set over all model fields.
pub open spec fn spec_build_doc(m: ModelV, a: ArgsV) -> Result<DocV, int> {
    spec_build_doc_upto(m, a, m.fields.len() as int)
}

/// Once a field fails to convert, the whole document build fails there.
pub proof fn lemma_build_doc_err_prefix(m: ModelV, a: ArgsV, i: int, n: int)
    requires
        0 <= i <= n,
        spec_build_doc_upto(m, a, i) is Err,
    ensures
        spec_build_doc_upto(m, a, n) == spec_build_doc_upto(m, a, i),
    decreases n - i,
{
    if i < n {
        lemma_build_doc_err_prefix(m, a, i + 1, n);
    }
}

/// The built document writes exactly the fields present in the argument set,
/// with their converted values, and is ready for insertion.
pub proof fn lemma_build_doc(m: ModelV, a: ArgsV)
    requires
        m.wf(),
    ensures
        match spec_build_doc(m, a) {
            Ok(d) => {
                &&& d.len() == m.fields.len()
                &&& forall|i: int|
                    0 <= i < m.fields.len() ==> #[trigger] d[i] == (if args_has(
                        a,
                        m.fields[i].db_name,
                    ) {
                        spec_convert_literal(m.fields[i], args_value(a, m.fields[i].db_name))
                    } else {
                        Option::None
                    })
                &&& forall|i: int|
                    0 <= i < m.fields.len() && args_has(a, #[trigger] m.fields[i].db_name)
                        ==> spec_convert_literal(m.fields[i], args_value(a, m.fields[i].db_name))
                        is Some
                &&& insert_ready(m, d)
            },
            Err(i) => {
                &&& 0 <= i < m.fields.len()
                &&& args_has(a, m.fields[i].db_name)
                &&& spec_convert_literal(m.fields[i], args_value(a, m.fields[i].db_name))
                    is None
            },
        },
{
    lemma_build_doc_upto_props(m, a, m.fields.len() as int);
    match spec_build_doc(m, a) {
        Ok(d) => {
            assert(insert_ready(m, d)) by {
                let f = m.fields[m.id_field];
                if args_has(a, f.db_name) {
                    match spec_convert_literal(f, args_value(a, f.db_name)) {
                        Option::Some(dv) => {
                            assert(d[m.id_field] == Option::Some(dv));
                        },
                        Option::None => {},
                    }
                }
            }
        },
        Err(_) => {},
    }
}

/// Inductive shape of the partial document build.
pub proof fn lemma_build_doc_upto_props(m: ModelV, a: ArgsV, n: int)
    requires
        0 <= n <= m.fields.len(),
    ensures
        match spec_build_doc_upto(m, a, n) {
            Ok(d) => {
                &&& d.len() == n
                &&& forall|i: int|
                    0 <= i < n ==> #[trigger] d[i] == (if args_has(a, m.fields[i].db_name) {
                        spec_convert_literal(m.fields[i], args_value(a, m.fields[i].db_name))
                    } else {
                        Option::None
                    })
                &&& forall|i: int|
                    0 <= i < n && args_has(a, #[trigger] m.fields[i].db_name)
                        ==> spec_convert_literal(m.fields[i], args_value(a, m.fields[i].db_name))
                        is Some
            },
            Err(i) => {
                &&& 0 <= i < n
                &&& args_has(a, m.fields[i].db_name)
                &&& spec_convert_literal(m.fields[i], args_value(a, m.fields[i].db_name))
                    is None
            },
        },
    decreases n,
{
    if n > 0 {
        lemma_build_doc_upto_props(m, a, n - 1);
    }
}

/// Builds one native document from a Write Argument Set: only the fields
/// actually present in the set are written. A value that does not fit its
/// field fails with the offending field's database name.
pub fn build_document(model: &ModelDef, args: &WriteArgs) -> (r: Result<Document, Error>)
    requires
        model@.wf(),
        args_wf(args@),
    ensures
        match r {
            Ok(d) => spec_build_doc(model@, args@) == Ok::<_, int>(d@),
            Err(e) => match spec_build_doc(model@, args@) {
                Err(i) => e matches Error::FieldConversion(nm) && nm@ == model@.fields[i].db_name,
                Ok(_) => false,
            },
        },
{
    let n = model.fields.len();
    let mut out: Vec<Option<DocValue>> = Vec::new();
    let mut i: usize = 0;
    proof {
        assert(Document { fields: out }@ =~= Seq::<Option<DocValueV>>::empty());
    }
    while i < n
        invariant
            model@.wf(),
            args_wf(args@),
            n == model@.fields.len(),
            0 <= i <= n,
            out@.len() == i,
            spec_build_doc_upto(model@, args@, i as int) == Ok::<_, int>(
                out@.map_values(|o: Option<DocValue>| slot_view(o)),
            ),
        decreases n - i,
    {
        let ghost before = out@.map_values(|o: Option<DocValue>| slot_view(o));
        assert(model@.fields[i as int] == model.fields@[i as int]@);
        let slot: Option<DocValue> = match args.get_arg(model.fields[i].db_name.as_str()) {
            Option::Some(e) => {
                match convert_literal(&model.fields[i], e) {
                    Option::Some(dv) => Option::Some(dv),
                    Option::None => {
                        proof {
                            lemma_build_doc_err_prefix(model@, args@, i + 1, n as int);
                        }
                        return Err(Error::FieldConversion(model.fields[i].db_name.clone()));
                    },
                }
            },
            Option::None => Option::None,
        };
        out.push(slot);
        proof {
            assert(out@.map_values(|o: Option<DocValue>| slot_view(o)) =~= before.push(
                slot_view(out@[i as int]),
            ));
        }
        i += 1;
    }
    Ok(Document { fields: out })
}

/// Creates a single record: builds one native document holding exactly the
/// fields present in the argument set, inserts it, and returns a Selection
/// Result carrying the backend-acknowledged primary key. Any insert fault
/// propagates as the corresponding typed error, unchanged.
pub fn create_record(coll: &mut Collection, model: &ModelDef, args: &WriteArgs) -> (r: Result<
    SelectionResult,
    Error,
>)
    requires
        coll_wf(model@, old(coll)@),
        args_wf(args@),
    ensures
        coll_wf(model@, final(coll)@),
        match r {
            Ok(sel) => match spec_build_doc(model@, args@) {
                Ok(d) => match spec_insert_one(model@, old(coll)@, d) {
                    Ok((c2, idv)) => final(coll)@ == c2 && sel@ == seq![
                        (model@.fields[model@.id_field].db_name, idv),
                    ],
                    Err(_) => false,
                },
                Err(_) => false,
            },
            Err(e) => final(coll)@ == old(coll)@ && match spec_build_doc(model@, args@) {
                Err(i) => e matches Error::FieldConversion(nm) && nm@ == model@.fields[i].db_name,
                Ok(d) => match spec_insert_one(model@, old(coll)@, d) {
                    Err(f) => e == fault_error(f),
                    Ok(_) => false,
                },
            },
        },
{
    proof {
        lemma_build_doc(model@, args@);
    }
    let doc = match build_document(model, args) {
        Ok(d) => d,
        Err(e) => {
            return Err(e);
        },
    };
    match insert_one(coll, model, doc) {
        Ok(id) => {
            proof {
                crate::store::lemma_insert_one_wf(model@, old(coll)@, doc@);
            }
            assert(model@.fields[model@.id_field] == model.fields@[model@.id_field]@);
            let name = model.fields[model.id_field].db_name.clone();
            let sel = SelectionResult::from_pair(name, id);
            Ok(sel)
        },
        Err(f) => Err(fault_to_error(f)),
    }
}

/// The primary key values named by explicit Selection Results, in order.
pub open spec fn spec_selector_ids(sels: Seq<SelectionV>) -> Seq<ValueV> {
    sels.map_values(|s: SelectionV| s[0].1)
}

/// The primary keys of the documents matching a filter, in document order.
pub open spec fn spec_filter_ids(m: ModelV, recs: Seq<DocV>, f: FilterV) -> Seq<ValueV>
    decreases recs.len(),
{
    if recs.len() == 0 {
        Seq::empty()
    } else {
        spec_filter_ids(m, recs.drop_last(), f) + (if spec_matches(m, recs.last(), f) {
            seq![doc_id(m, recs.last())]
        } else {
            Seq::empty()
        })
    }
}

/// What a Record Filter resolves to: the keys named by explicit Selection
/// Results, verbatim and without a query; otherwise the keys of the matching
/// documents.
pub open spec fn spec_resolve(m: ModelV, c: CollectionV, rf: RecordFilterV) -> Seq<ValueV> {
    match rf.selectors {
        Option::Some(sels) => spec_selector_ids(sels),
        Option::None => spec_filter_ids(m, c.records, rf.filter),
    }
}

/// The key value of each Selection Result, in order.
pub fn selectors_to_values(sels: &Vec<SelectionResult>) -> (r: Vec<Value>)
    requires
        forall|i: int| 0 <= i < sels@.len() ==> (#[trigger] sels@[i])@.len() >= 1,
    ensures
        vals_view(r@) == spec_selector_ids(sels@.map_values(|s: SelectionResult| s@)),
{
    let ghost sv = sels@.map_values(|s: SelectionResult| s@);
    let n = sels.len();
    let mut out: Vec<Value> = Vec::new();
    let mut i: usize = 0;
    while i < n
        invariant
            sv == sels@.map_values(|s: SelectionResult| s@),
            forall|j: int| 0 <= j < sels@.len() ==> (#[trigger] sels@[j])@.len() >= 1,
            n == sels@.len(),
            0 <= i <= n,
            out@.len() == i,
            forall|j: int| 0 <= j < i ==> out@[j]@ == spec_selector_ids(sv)[j],
        decreases n - i,
    {
        assert(sv[i as int] == sels@[i as int]@);
        let v = value_dup(sels[i].first_value());
        out.push(v);
        i += 1;
    }
    assert(vals_view(out@) =~= spec_selector_ids(sv));
    out
}

/// Resolves a Record Filter to the targeted primary key values: explicit
/// Selection Results are taken verbatim; otherwise a projection-only scan
/// collects the keys of the matching documents. An empty result is a valid,
/// non-error outcome.
pub fn resolve_record_filter(coll: &Collection, model: &ModelDef, rf: &RecordFilter) -> (ids: Vec<
    Value,
>)
    requires
        coll_wf(model@, coll@),
        rf.wf(),
    ensures
        vals_view(ids@) == spec_resolve(model@, coll@, rf@),
{
    match &rf.selectors {
        Option::Some(sels) => {
            proof {
                let sv = sels@.map_values(|s: SelectionResult| s@);
                assert(rf@.selectors == Option::Some(sv));
                assert(sv.len() == sels@.len());
                assert forall|i: int| 0 <= i < sels@.len() implies (#[trigger] sels@[i])@.len()
                    >= 1 by {
                    assert(sv[i] == sels@[i]@);
                    assert(match rf@.selectors {
                        Option::Some(ss) => ss[i].len() >= 1,
                        Option::None => false,
                    });
                }
            }
            selectors_to_values(sels)
        },
        Option::None => {
            let ghost m = model@;
            let ghost fv = rf.filter@;
            let n = coll.records.len();
            let mut out: Vec<Value> = Vec::new();
            let mut i: usize = 0;
            proof {
                assert(vals_view(out@) =~= Seq::<ValueV>::empty());
                assert(coll@.records.take(0) =~= Seq::<DocV>::empty());
            }
            while i < n
                invariant
                    coll_wf(m, coll@),
                    m == model@,
                    fv == rf.filter@,
                    n == coll@.records.len(),
                    0 <= i <= n,
                    vals_view(out@) == spec_filter_ids(m, coll@.records.take(i as int), fv),
                decreases n - i,
            {
                proof {
                    assert(coll@.records.take(i + 1).drop_last() =~= coll@.records.take(i as int));
                    assert(coll@.records.take(i + 1).last() == coll@.records[i as int]);
                    assert(doc_wf(m, coll@.records[i as int]));
                    assert(coll.records@[i as int]@ == coll@.records[i as int]);
                }
                if matches_doc(model, &coll.records[i], &rf.filter) {
                    let ghost before = vals_view(out@);
                    let idv = crate::store::doc_get_id(&coll.records[i], model);
                    out.push(idv);
                    proof {
                        assert(vals_view(out@) =~= before.push(
                            doc_id(m, coll@.records[i as int]),
                        ));
                        assert(vals_view(out@) =~= spec_filter_ids(
                            m,
                            coll@.records.take(i + 1),
                            fv,
                        ));
                    }
                } else {
                    proof {
                        assert(vals_view(out@) =~= spec_filter_ids(
                            m,
                            coll@.records.take(i + 1),
                            fv,
                        ));
                    }
                }
                i += 1;
            }
            proof {
                assert(coll@.records.take(n as int) =~= coll@.records);
            }
            out
        },
    }
}

/// The views of a list of Selection Results.
pub open spec fn sels_view(s: Seq<SelectionResult>) -> Seq<SelectionV> {
    s.map_values(|x: SelectionResult| x@)
}

/// One single-pair Selection Result per key value, in order.
pub open spec fn spec_sels_of(idname: Seq<char>, ids: Seq<ValueV>) -> Seq<SelectionV> {
    ids.map_values(|v: ValueV| seq![(idname, v)])
}

/// Builds the Selection Results reporting these primary key values.
pub fn ids_to_selections(model: &ModelDef, ids: &Vec<Value>) -> (r: Vec<SelectionResult>)
    requires
        model@.wf(),
    ensures
        sels_view(r@) == spec_sels_of(model@.fields[model@.id_field].db_name, vals_view(ids@)),
{
    let ghost idname = model@.fields[model@.id_field].db_name;
    let n = ids.len();
    let mut out: Vec<SelectionResult> = Vec::new();
    let mut i: usize = 0;
    while i < n
        invariant
            model@.wf(),
            idname == model@.fields[model@.id_field].db_name,
            n == ids@.len(),
            0 <= i <= n,
            out@.len() == i,
            forall|j: int| 0 <= j < i ==> out@[j]@ == spec_sels_of(idname, vals_view(ids@))[j],
        decreases n - i,
    {
        assert(model@.fields[model@.id_field] == model.fields@[model.id_field as int]@);
        let name = model.fields[model.id_field].db_name.clone();
        let sel = SelectionResult::from_pair(name, value_dup(&ids[i]));
        out.push(sel);
        proof {
            assert(vals_view(ids@)[i as int] == ids@[i as int]@);
        }
        i += 1;
    }
    assert(sels_view(out@) =~= spec_sels_of(idname, vals_view(ids@)));
    out
}

/// The views of a batch of Write Argument Sets.
pub open spec fn argses_view(s: Seq<WriteArgs>) -> Seq<ArgsV> {
    s.map_values(|a: WriteArgs| a@)
}

/// The documents built from a batch of Write Argument Sets, or the batch
/// index and field index of the first value that does not fit.
pub open spec fn spec_build_docs(m: ModelV, argses: Seq<ArgsV>) -> Result<Seq<DocV>, (int, int)>
    decreases argses.len(),
{
    if argses.len() == 0 {
        Ok(Seq::empty())
    } else {
        match spec_build_docs(m, argses.drop_last()) {
            Err(e) => Err(e),
            Ok(ds) => match spec_build_doc(m, argses.last()) {
                Ok(d) => Ok(ds.push(d)),
                Err(i) => Err(((argses.len() - 1) as int, i)),
            },
        }
    }
}

/// Once one argument set fails to convert, the whole batch build fails there.
pub proof fn lemma_build_docs_err_prefix(m: ModelV, argses: Seq<ArgsV>, j: int, n: int)
    requires
        0 <= j <= n <= argses.len(),
        spec_build_docs(m, argses.take(j)) is Err,
    ensures
        spec_build_docs(m, argses.take(n)) == spec_build_docs(m, argses.take(j)),
    decreases n - j,
{
    if j < n {
        assert(argses.take(j + 1).drop_last() =~= argses.take(j));
        lemma_build_docs_err_prefix(m, argses, j + 1, n);
    }
}

/// Every document of a successfully built batch is ready for insertion.
pub proof fn lemma_build_docs_ready(m: ModelV, argses: Seq<ArgsV>)
    requires
        m.wf(),
    ensures
        match spec_build_docs(m, argses) {
            Ok(ds) => ds.len() == argses.len() && forall|j: int|
                0 <= j < ds.len() ==> insert_ready(m, #[trigger] ds[j]),
            Err(e) => 0 <= e.0 < argses.len() && spec_build_doc(m, argses[e.0]) == Err::<DocV, int>(
                e.1,
            ),
        },
    decreases argses.len(),
{
    if argses.len() > 0 {
        lemma_build_docs_ready(m, argses.drop_last());
        lemma_build_doc(m, argses.last());
        assert(argses[argses.len() - 1] == argses.last());
        match spec_build_docs(m, argses) {
            Ok(ds) => {
                assert(forall|j: int|
                    0 <= j < argses.drop_last().len() ==> #[trigger] argses.drop_last()[j]
                        == argses[j]);
            },
            Err(_) => {},
        }
    }
}

/// One native bulk insert: documents attempted in order; under the ordered
/// mode the first fault stops the batch, otherwise every document is
/// attempted and the faults are collected. Yields the new collection, the
/// number inserted, and the per-document faults.
pub open spec fn spec_insert_many(m: ModelV, c: CollectionV, docs: Seq<DocV>, ordered: bool) -> (
    CollectionV,
    nat,
    Seq<StoreFault>,
)
    decreases docs.len(),
{
    if docs.len() == 0 {
        (c, 0, Seq::empty())
    } else {
        match spec_insert_one(m, c, docs[0]) {
            Ok((c2, _)) => {
                let (c3, k, fs) = spec_insert_many(m, c2, docs.skip(1), ordered);
                (c3, k + 1, fs)
            },
            Err(f) => if ordered {
                (c, 0, seq![f])
            } else {
                let (c3, k, fs) = spec_insert_many(m, c, docs.skip(1), ordered);
                (c3, k, seq![f] + fs)
            },
        }
    }
}

/// A bulk insert keeps the collection well formed; without the ordered mode,
/// every document is either inserted or faulted.
pub proof fn lemma_insert_many_wf(m: ModelV, c: CollectionV, docs: Seq<DocV>, ordered: bool)
    requires
        coll_wf(m, c),
        forall|j: int| 0 <= j < docs.len() ==> insert_ready(m, #[trigger] docs[j]),
    ensures
        ({
            let (c2, k, fs) = spec_insert_many(m, c, docs, ordered);
            &&& coll_wf(m, c2)
            &&& k <= docs.len()
            &&& (!ordered ==> k + fs.len() == docs.len())
            &&& (ordered ==> fs.len() <= 1)
        }),
    decreases docs.len(),
{
    if docs.len() > 0 {
        crate::store::lemma_insert_one_wf(m, c, docs[0]);
        assert(forall|j: int|
            0 <= j < docs.skip(1).len() ==> #[trigger] docs.skip(1)[j] == docs[j + 1]);
        match spec_insert_one(m, c, docs[0]) {
            Ok((c2, _)) => {
                lemma_insert_many_wf(m, c2, docs.skip(1), ordered);
            },
            Err(_) => {
                if !ordered {
                    lemma_insert_many_wf(m, c, docs.skip(1), ordered);
                }
            },
        }
    }
}

/// Whether every fault of a bulk failure carries the duplicate-key code.
pub open spec fn all_duplicate_faults(fs: Seq<StoreFault>) -> bool {
    forall|i: int| 0 <= i < fs.len() ==> spec_fault_code(#[trigger] fs[i]) == 11000
}

/// The index of the first fault that does not carry the duplicate-key code.
pub open spec fn spec_first_non_dup(fs: Seq<StoreFault>) -> int
    decreases fs.len(),
{
    if fs.len() == 0 {
        0
    } else if spec_fault_code(fs[0]) != 11000 {
        0
    } else {
        1 + spec_first_non_dup(fs.skip(1))
    }
}

/// Decides a partially failed bulk insert, inspecting the per-document fault
/// codes: under duplicate skipping, a failure report made exclusively of
/// duplicate-key faults is absorbed and the batch size minus the conflicting
/// documents is reported; any other fault code, or no duplicate skipping,
/// fails the call with the underlying fault's typed error.
pub fn absorb_duplicate_faults(
    num_records: u64,
    faults: &Vec<StoreFault>,
    skip_duplicates: bool,
) -> (r: Result<u64, Error>)
    requires
        0 < faults@.len() <= num_records,
    ensures
        match r {
            Ok(count) => skip_duplicates && all_duplicate_faults(faults@) && count + faults@.len()
                == num_records,
            Err(e) => if skip_duplicates {
                !all_duplicate_faults(faults@) && e == fault_error(
                    faults@[spec_first_non_dup(faults@)],
                )
            } else {
                e == fault_error(faults@[0])
            },
        },
{
    if !skip_duplicates {
        return Err(fault_to_error(faults[0]));
    }
    let n = faults.len();
    let mut i: usize = 0;
    while i < n
        invariant
            skip_duplicates,
            0 < faults@.len() <= num_records,
            n == faults@.len(),
            0 <= i <= n,
            forall|j: int| 0 <= j < i ==> spec_fault_code(#[trigger] faults@[j]) == 11000,
        decreases n - i,
    {
        if fault_code(faults[i]) != DUPLICATE_KEY_CODE {
            proof {
                lemma_first_non_dup(faults@, i as int);
                assert(spec_fault_code(faults@[i as int]) != 11000);
                assert(!all_duplicate_faults(faults@));
            }
            return Err(fault_to_error(faults[i]));
        }
        i += 1;
    }
    Ok(num_records - (n as u64))
}

/// The first non-duplicate fault is where the scan stops.
pub proof fn lemma_first_non_dup(fs: Seq<StoreFault>, i: int)
    requires
        0 <= i < fs.len(),
        spec_fault_code(fs[i]) != 11000,
        forall|j: int| 0 <= j < i ==> spec_fault_code(#[trigger] fs[j]) == 11000,
    ensures
        spec_first_non_dup(fs) == i,
    decreases i,
{
    if i > 0 {
        assert(forall|j: int| 0 <= j < fs.skip(1).len() ==> #[trigger] fs.skip(1)[j] == fs[j + 1]);
        lemma_first_non_dup(fs.skip(1), i - 1);
    }
}

/// Builds one native document per Write Argument Set of a batch; the first
/// value that does not fit fails the whole batch with its field's database
/// name.
pub fn build_documents(model: &ModelDef, args_list: &Vec<WriteArgs>) -> (r: Result<
    Vec<Document>,
    Error,
>)
    requires
        model@.wf(),
        forall|j: int| 0 <= j < args_list@.len() ==> args_wf(#[trigger] args_list@[j]@),
    ensures
        match r {
            Ok(ds) => spec_build_docs(model@, argses_view(args_list@)) == Ok::<_, (int, int)>(
                ds@.map_values(|d: Document| d@),
            ),
            Err(e) => match spec_build_docs(model@, argses_view(args_list@)) {
                Err(ji) => e matches Error::FieldConversion(nm) && nm@ == model@.fields[
                    ji.1
                ].db_name,
                Ok(_) => false,
            },
        },
{
    let ghost m = model@;
    let ghost av = argses_view(args_list@);
    let mut docs: Vec<Document> = Vec::new();
    let nb = args_list.len();
    let mut j: usize = 0;
    proof {
        assert(av.take(0) =~= Seq::<ArgsV>::empty());
        assert(docs@.map_values(|d: Document| d@) =~= Seq::<DocV>::empty());
    }
    while j < nb
        invariant
            model@.wf(),
            m == model@,
            av == argses_view(args_list@),
            forall|q: int| 0 <= q < args_list@.len() ==> args_wf(#[trigger] args_list@[q]@),
            nb == args_list@.len(),
            0 <= j <= nb,
            spec_build_docs(m, av.take(j as int)) == Ok::<_, (int, int)>(
                docs@.map_values(|d: Document| d@),
            ),
        decreases nb - j,
    {
        proof {
            assert(av.take(j + 1).drop_last() =~= av.take(j as int));
            assert(av.take(j + 1).last() == args_list@[j as int]@);
        }
        let ghost before = docs@.map_values(|d: Document| d@);
        match build_document(model, &args_list[j]) {
            Ok(d) => {
                docs.push(d);
                proof {
                    assert(docs@.map_values(|d: Document| d@) =~= before.push(
                        docs@[docs@.len() - 1]@,
                    ));
                }
            },
            Err(e) => {
                proof {
                    lemma_build_docs_err_prefix(m, av, j + 1, av.len() as int);
                    assert(av.take(av.len() as int) =~= av);
                }
                return Err(e);
            },
        }
        j += 1;
    }
    proof {
        assert(av.take(nb as int) =~= av);
    }
    Ok(docs)
}

/// Creates records in bulk: builds one native document per argument set, then
/// inserts them, ordered unless duplicate skipping is requested. A partial
/// failure made exclusively of duplicate-key faults is absorbed under
/// duplicate skipping; any other failure propagates. Returns the number of
/// records actually created.
pub fn create_records(
    coll: &mut Collection,
    model: &ModelDef,
    args_list: &Vec<WriteArgs>,
    skip_duplicates: bool,
) -> (r: Result<u64, Error>)
    requires
        coll_wf(model@, old(coll)@),
        forall|j: int| 0 <= j < args_list@.len() ==> args_wf(#[trigger] args_list@[j]@),
    ensures
        coll_wf(model@, final(coll)@),
        ({
            let m = model@;
            let av = argses_view(args_list@);
            match spec_build_docs(m, av) {
                Err(e) => final(coll)@ == old(coll)@ && match r {
                    Err(err) => err matches Error::FieldConversion(nm) && nm@ == m.fields[
                        e.1
                    ].db_name,
                    Ok(_) => false,
                },
                Ok(docs) => {
                    let (c2, k, fs) = spec_insert_many(m, old(coll)@, docs, !skip_duplicates);
                    &&& final(coll)@ == c2
                    &&& match r {
                        Ok(count) => count == k && (fs.len() == 0 || (skip_duplicates
                            && all_duplicate_faults(fs))),
                        Err(e) => fs.len() > 0 && (if skip_duplicates {
                            !all_duplicate_faults(fs) && e == fault_error(
                                fs[spec_first_non_dup(fs)],
                            )
                        } else {
                            e == fault_error(fs[0])
                        }),
                    }
                },
            }
        }),
{
    let ghost m = model@;
    let ghost av = argses_view(args_list@);
    let num_records = args_list.len();

    // Build all native documents first; a conversion failure fails the whole
    // call before anything is written.
    let docs = match build_documents(model, args_list) {
        Ok(ds) => ds,
        Err(e) => {
            return Err(e);
        },
    };
    let ghost docsv = docs@.map_values(|d: Document| d@);
    proof {
        lemma_build_docs_ready(m, av);
    }

    // Ordered insert (inverse of duplicate skipping) stops at the first
    // fault; unordered attempts every document and collects the faults.
    let ordered = !skip_duplicates;
    let nd = docs.len();
    let mut inserted: u64 = 0;
    let mut faults: Vec<StoreFault> = Vec::new();
    let mut i: usize = 0;
    proof {
        assert(docsv.skip(0) =~= docsv);
        assert(faults@ + spec_insert_many(m, coll@, docsv.skip(0), ordered).2 =~= spec_insert_many(
            m,
            coll@,
            docsv.skip(0),
            ordered,
        ).2);
    }
    while i < nd
        invariant
            model@.wf(),
            m == model@,
            av == argses_view(args_list@),
            spec_build_docs(m, av) == Ok::<_, (int, int)>(docsv),
            num_records == args_list@.len(),
            docsv.len() == num_records,
            ordered == !skip_duplicates,
            nd == docs@.len(),
            docsv == docs@.map_values(|d: Document| d@),
            forall|q: int| 0 <= q < docsv.len() ==> insert_ready(m, #[trigger] docsv[q]),
            0 <= i <= nd,
            inserted <= i,
            faults@.len() <= i,
            coll_wf(m, coll@),
            ordered ==> faults@.len() == 0,
            ({
                let rest = spec_insert_many(m, coll@, docsv.skip(i as int), ordered);
                spec_insert_many(m, old(coll)@, docsv, ordered) == (
                    rest.0,
                    (rest.1 + inserted as nat) as nat,
                    faults@ + rest.2,
                )
            }),
        decreases nd - i,
    {
        proof {
            assert(docsv.skip(i as int)[0] == docsv[i as int]);
            assert(docsv.skip(i as int).skip(1) =~= docsv.skip(i + 1));
            assert(docs@[i as int]@ == docsv[i as int]);
        }
        let doc = crate::store::doc_dup(&docs[i]);
        match insert_one(coll, model, doc) {
            Ok(_) => {
                proof {
                    let rest = spec_insert_many(m, coll@, docsv.skip(i + 1), ordered);
                    assert(faults@ + (seq![] + rest.2) =~= faults@ + rest.2);
                }
                inserted += 1;
            },
            Err(f) => {
                if ordered {
                    proof {
                        let rest = spec_insert_many(m, coll@, docsv.skip(i as int), ordered);
                        assert(rest.2 =~= seq![f]);
                        assert((faults@ + rest.2)[0] == f);
                        assert((faults@ + rest.2).len() == 1);
                    }
                    return Err(fault_to_error(f));
                }
                let ghost fbefore = faults@;
                faults.push(f);
                proof {
                    let rest = spec_insert_many(m, coll@, docsv.skip(i + 1), ordered);
                    assert(fbefore + (seq![f] + rest.2) =~= faults@ + rest.2);
                }
            },
        }
        i += 1;
    }
    proof {
        assert(docsv.skip(nd as int) =~= Seq::<DocV>::empty());
        let rest = spec_insert_many(m, coll@, docsv.skip(nd as int), ordered);
        assert(faults@ + rest.2 =~= faults@);
        lemma_insert_many_wf(m, old(coll)@, docsv, ordered);
    }
    if faults.is_empty() {
        Ok(inserted)
    } else {
        proof {
            assert(!skip_duplicates ==> faults@.len() == 0);
        }
        let r = absorb_duplicate_faults(num_records as u64, &faults, skip_duplicates);
        proof {
            let (c2, k, fs) = spec_insert_many(m, old(coll)@, docsv, ordered);
            assert(fs == faults@);
            assert(k == inserted as nat);
            assert(k + fs.len() == docsv.len());
        }
        r
    }
}

/// Whether an update call carries the bulk ("update many") semantic.
#[derive(Clone, Copy, Debug, PartialEq, Eq, Structural)]
pub enum UpdateType {
    Many,
    One,
}

/// The native update action a Write Expression translates to for one field,
/// or `None` when the expression does not fit the field: a literal becomes a
/// set, an atomic modifier the equivalent native operation.
pub open spec fn spec_convert_op(f: FieldV, e: WriteExprV) -> Option<UpdateActionV> {
    match e {
        WriteExprV::Value(v) => if !(f.arity is List) && scalar_fits(f, v) {
            Option::Some(UpdateActionV::SetScalar(v))
        } else {
            Option::None
        },
        WriteExprV::ValueList(vs) => if list_fits(f, vs) {
            Option::Some(UpdateActionV::SetList(vs))
        } else {
            Option::None
        },
        WriteExprV::Add(k) => if f.field_type is Int && !(f.arity is List) {
            Option::Some(UpdateActionV::Inc(k))
        } else {
            Option::None
        },
        WriteExprV::Subtract(k) => if f.field_type is Int && !(f.arity is List) && k != i64::MIN
            as int {
            Option::Some(UpdateActionV::Inc(-k))
        } else {
            Option::None
        },
        WriteExprV::Push(v) => if f.arity is List && member_fits(f.field_type, v) {
            Option::Some(UpdateActionV::PushOne(v))
        } else {
            Option::None
        },
    }
}

/// Converts one Write Expression into its native update action.
pub fn convert_op(f: &FieldDef, e: &crate::args::WriteExpression) -> (r: Option<UpdateAction>)
    ensures
        match r {
            Option::Some(a) => spec_convert_op(f@, e@) == Option::Some(a@),
            Option::None => spec_convert_op(f@, e@) is None,
        },
{
    match e {
        crate::args::WriteExpression::Value(v) => {
            if !matches!(f.arity, crate::model::FieldArity::List) && crate::model::check_scalar_fits(
                f,
                v,
            ) {
                Option::Some(UpdateAction::SetScalar(value_dup(v)))
            } else {
                Option::None
            }
        },
        crate::args::WriteExpression::ValueList(vs) => {
            if check_list_fits(f, vs) {
                Option::Some(UpdateAction::SetList(crate::store::values_dup(vs)))
            } else {
                Option::None
            }
        },
        crate::args::WriteExpression::Add(k) => {
            if matches!(f.field_type, FieldType::Int) && !matches!(
                f.arity,
                crate::model::FieldArity::List,
            ) {
                Option::Some(UpdateAction::Inc(*k))
            } else {
                Option::None
            }
        },
        crate::args::WriteExpression::Subtract(k) => {
            if matches!(f.field_type, FieldType::Int) && !matches!(
                f.arity,
                crate::model::FieldArity::List,
            ) {
                if *k == i64::MIN {
                    Option::None
                } else {
                    Option::Some(UpdateAction::Inc(-*k))
                }
            } else {
                Option::None
            }
        },
        crate::args::WriteExpression::Push(v) => {
            if matches!(f.arity, crate::model::FieldArity::List) && check_member_fits(
                &f.field_type,
                v,
            ) {
                Option::Some(UpdateAction::PushOne(value_dup(v)))
            } else {
                Option::None
            }
        },
    }
}

/// The native update operations a Write Argument Set translates to over the
/// first `n` model fields, in model field order; an expression that does not
/// fit yields the offending field's index.
pub open spec fn spec_build_ops_upto(m: ModelV, a: ArgsV, n: int) -> Result<Seq<UpdateOpV>, int>
    decreases n,
{
    if n <= 0 {
        Ok(Seq::empty())
    } else {
        match spec_build_ops_upto(m, a, n - 1) {
            Err(i) => Err(i),
            Ok(ops) => {
                let f = m.fields[n - 1];
                if args_has(a, f.db_name) {
                    match spec_convert_op(f, args_value(a, f.db_name)) {
                        Option::None => Err(n - 1),
                        Option::Some(act) => Ok(
                            ops.push(UpdateOpV { field: n - 1, action: act }),
                        ),
                    }
                } else {
                    Ok(ops)
                }
            },
        }
    }
}

/// The native update operations of a Write Argument Set over all fields.
pub open spec fn spec_build_ops(m: ModelV, a: ArgsV) -> Result<Seq<UpdateOpV>, int> {
    spec_build_ops_upto(m, a, m.fields.len() as int)
}

/// Once a field fails to convert, the whole translation fails there.
pub proof fn lemma_build_ops_err_prefix(m: ModelV, a: ArgsV, i: int, n: int)
    requires
        0 <= i <= n,
        spec_build_ops_upto(m, a, i) is Err,
    ensures
        spec_build_ops_upto(m, a, n) == spec_build_ops_upto(m, a, i),
    decreases n - i,
{
    if i < n {
        lemma_build_ops_err_prefix(m, a, i + 1, n);
    }
}

/// Successfully translated operations are valid against the model, provided
/// the argument set does not write the immutable primary key.
pub proof fn lemma_build_ops_valid(m: ModelV, a: ArgsV, n: int)
    requires
        m.wf(),
        0 <= n <= m.fields.len(),
        !args_has(a, m.fields[m.id_field].db_name),
    ensures
        match spec_build_ops_upto(m, a, n) {
            Ok(ops) => ops_valid(m, ops),
            Err(i) => 0 <= i < n,
        },
    decreases n,
{
    if n > 0 {
        lemma_build_ops_valid(m, a, n - 1);
        match spec_build_ops_upto(m, a, n) {
            Ok(ops) => {
                if args_has(a, m.fields[n - 1].db_name) {
                    assert(n - 1 != m.id_field);
                }
            },
            Err(_) => {},
        }
    }
}

/// Translates a Write Argument Set into native update operations, one or more
/// per present field, in model field order. An expression that does not fit
/// its field fails with the offending field's database name.
pub fn build_update_ops(model: &ModelDef, args: &WriteArgs) -> (r: Result<Vec<UpdateOp>, Error>)
    requires
        model@.wf(),
        args_wf(args@),
    ensures
        match r {
            Ok(ops) => spec_build_ops(model@, args@) == Ok::<_, int>(ops_view(ops@)),
            Err(e) => match spec_build_ops(model@, args@) {
                Err(i) => e matches Error::FieldConversion(nm) && nm@ == model@.fields[i].db_name,
                Ok(_) => false,
            },
        },
{
    let n = model.fields.len();
    let mut out: Vec<UpdateOp> = Vec::new();
    let mut i: usize = 0;
    proof {
        assert(ops_view(out@) =~= Seq::<UpdateOpV>::empty());
    }
    while i < n
        invariant
            model@.wf(),
            args_wf(args@),
            n == model@.fields.len(),
            0 <= i <= n,
            spec_build_ops_upto(model@, args@, i as int) == Ok::<_, int>(ops_view(out@)),
        decreases n - i,
    {
        let ghost before = ops_view(out@);
        assert(model@.fields[i as int] == model.fields@[i as int]@);
        match args.get_arg(model.fields[i].db_name.as_str()) {
            Option::Some(e) => {
                match convert_op(&model.fields[i], e) {
                    Option::Some(act) => {
                        out.push(UpdateOp { field: i, action: act });
                        proof {
                            assert(ops_view(out@) =~= before.push(out@[out@.len() - 1]@));
                        }
                    },
                    Option::None => {
                        proof {
                            lemma_build_ops_err_prefix(model@, args@, i + 1, n as int);
                        }
                        return Err(Error::FieldConversion(model.fields[i].db_name.clone()));
                    },
                }
            },
            Option::None => {},
        }
        i += 1;
    }
    Ok(out)
}

/// Updates the records matched by a Record Filter: resolves the target keys
/// first, short-circuits to an empty result on an empty resolution, skips the
/// write when no operation applies but still reports the resolved keys, and
/// distinguishes a genuine no-op update from a vanished target by the
/// backend's matched count in bulk mode.
pub fn update_records(
    coll: &mut Collection,
    model: &ModelDef,
    record_filter: &RecordFilter,
    args: &WriteArgs,
    update_type: UpdateType,
) -> (r: Result<Vec<SelectionResult>, Error>)
    requires
        coll_wf(model@, old(coll)@),
        args_wf(args@),
        record_filter.wf(),
        !args_has(args@, model@.fields[model@.id_field].db_name),
    ensures
        coll_wf(model@, final(coll)@),
        final(coll)@.name == old(coll)@.name,
        final(coll)@.next_id == old(coll)@.next_id,
        ({
            let m = model@;
            let idsv = spec_resolve(m, old(coll)@, record_filter@);
            let idname = m.fields[m.id_field].db_name;
            match r {
                Ok(sels) => {
                    &&& (idsv.len() == 0 ==> final(coll)@ == old(coll)@ && sels@.len() == 0)
                    &&& (idsv.len() > 0 ==> match spec_build_ops(m, args@) {
                        Ok(opsv) => if opsv.len() == 0 {
                            final(coll)@ == old(coll)@ && sels_view(sels@) == spec_sels_of(
                                idname,
                                idsv,
                            )
                        } else {
                            match spec_update_many(m, old(coll)@.records, idsv, opsv) {
                                Ok((rs, k)) => final(coll)@.records == rs && (if update_type
                                    is Many && k == 0 {
                                    sels@.len() == 0
                                } else {
                                    sels_view(sels@) == spec_sels_of(idname, idsv)
                                }),
                                Err(_) => false,
                            }
                        },
                        Err(_) => false,
                    })
                },
                Err(e) => {
                    &&& idsv.len() > 0
                    &&& match spec_build_ops(m, args@) {
                        Err(i) => final(coll)@ == old(coll)@ && (e matches Error::FieldConversion(
                            nm,
                        ) && nm@ == m.fields[i].db_name),
                        Ok(opsv) => opsv.len() > 0 && match spec_update_many(
                            m,
                            old(coll)@.records,
                            idsv,
                            opsv,
                        ) {
                            Err(f) => e == fault_error(f),
                            Ok(_) => false,
                        },
                    }
                },
            }
        }),
{
    let ids = resolve_record_filter(coll, model, record_filter);
    if ids.is_empty() {
        proof {
            assert(vals_view(ids@).len() == 0);
        }
        return Ok(Vec::new());
    }
    proof {
        assert(vals_view(ids@).len() > 0);
        lemma_build_ops_valid(model@, args@, model@.fields.len() as int);
    }
    let ops = match build_update_ops(model, args) {
        Ok(ops) => ops,
        Err(e) => {
            return Err(e);
        },
    };
    if ops.is_empty() {
        proof {
            assert(ops_view(ops@).len() == 0);
        }
        return Ok(ids_to_selections(model, &ids));
    }
    match update_by_ids(coll, model, &ids, &ops) {
        Ok(matched) => {
            if matches!(update_type, UpdateType::Many) && matched == 0 {
                Ok(Vec::new())
            } else {
                Ok(ids_to_selections(model, &ids))
            }
        },
        Err(f) => Err(fault_to_error(f)),
    }
}

/// What deleting by a Record Filter does: resolve the keys, and when any are
/// found, remove exactly the matching documents and report their number.
pub open spec fn spec_delete_records(m: ModelV, c: CollectionV, rf: RecordFilterV) -> (
    CollectionV,
    nat,
) {
    let ids = spec_resolve(m, c, rf);
    if ids.len() == 0 {
        (c, 0)
    } else {
        let (rs, k) = spec_delete_many(m, c.records, ids);
        (CollectionV { name: c.name, next_id: c.next_id, records: rs }, k)
    }
}

/// Deletes the records matched by a Record Filter: resolves the target keys,
/// short-circuits to zero on an empty resolution, otherwise bulk-deletes by
/// key and reports the backend's deleted count.
pub fn delete_records(coll: &mut Collection, model: &ModelDef, record_filter: &RecordFilter) -> (r:
    u64)
    requires
        coll_wf(model@, old(coll)@),
        record_filter.wf(),
    ensures
        coll_wf(model@, final(coll)@),
        (final(coll)@, r as nat) == spec_delete_records(model@, old(coll)@, record_filter@),
{
    let ids = resolve_record_filter(coll, model, record_filter);
    if ids.is_empty() {
        proof {
            assert(vals_view(ids@).len() == 0);
        }
        return 0;
    }
    proof {
        assert(vals_view(ids@).len() > 0);
    }
    let deleted = delete_by_ids(coll, model, &ids);
    deleted
}

/// What updating one model's collection inside the store does: the named
/// collection, when present, takes the bulk update; a missing collection is a
/// no-op.
pub open spec fn spec_update_coll_in_store(
    m: ModelV,
    s: StoreV,
    ids: Seq<ValueV>,
    ops: Seq<UpdateOpV>,
) -> Result<StoreV, StoreFault> {
    if store_has(s, m.db_name) {
        let i = store_index(s, m.db_name);
        match spec_update_many(m, s[i].records, ids, ops) {
            Ok((rs, _)) => Ok(
                s.update(i, CollectionV { name: s[i].name, next_id: s[i].next_id, records: rs }),
            ),
            Err(f) => Err(f),
        }
    } else {
        Ok(s)
    }
}

/// A store whose touched collection changed but kept its name leaves every
/// other model's collection, and the store's shape, intact.
pub proof fn lemma_other_coll_preserved(s0: StoreV, s1: StoreV, touched: Seq<char>, m: ModelV)
    requires
        store_wf(s0),
        s1.len() == s0.len(),
        forall|j: int| 0 <= j < s0.len() ==> #[trigger] s1[j].name == s0[j].name,
        forall|j: int| 0 <= j < s0.len() ==> s0[j].name != touched ==> #[trigger] s1[j] == s0[j],
        store_coll_wf(s0, m),
        m.db_name != touched,
    ensures
        store_coll_wf(s1, m),
{
    if store_has(s1, m.db_name) {
        let i1 = store_index(s1, m.db_name);
        assert(0 <= i1 < s1.len() && s1[i1].name == m.db_name);
        assert(store_has(s0, m.db_name));
        let i0 = store_index(s0, m.db_name);
        assert(0 <= i0 < s0.len() && s0[i0].name == m.db_name);
        assert(i0 == i1);
        assert(s1[i1] == s0[i0]);
    }
}

/// Applies one bulk update to the named model's collection in the store; a
/// missing collection is a no-op. Whatever the outcome, the store keeps its
/// shape and every untouched collection, and the touched collection stays
/// well formed.
pub fn update_collection_in_store(
    st: &mut Store,
    model: &ModelDef,
    ids: &Vec<Value>,
    ops: &Vec<UpdateOp>,
) -> (r: Result<(), StoreFault>)
    requires
        store_wf(old(st)@),
        store_coll_wf(old(st)@, model@),
        model@.wf(),
        ops_valid(model@, ops_view(ops@)),
    ensures
        final(st)@.len() == old(st)@.len(),
        forall|j: int| 0 <= j < old(st)@.len() ==> #[trigger] final(st)@[j].name == old(st)@[j].name,
        forall|j: int|
            0 <= j < old(st)@.len() && old(st)@[j].name != model@.db_name
                ==> #[trigger] final(st)@[j] == old(st)@[j],
        store_wf(final(st)@),
        store_coll_wf(final(st)@, model@),
        match r {
            Ok(_) => spec_update_coll_in_store(model@, old(st)@, vals_view(ids@), ops_view(ops@))
                == Ok::<_, StoreFault>(final(st)@),
            Err(f) => spec_update_coll_in_store(model@, old(st)@, vals_view(ids@), ops_view(ops@))
                == Err::<StoreV, _>(f),
        },
{
    match st.find_collection(model.db_name.as_str()) {
        Option::Some(i) => {
            proof {
                assert(st@[i as int] == st.collections@[i as int]@);
                assert(coll_wf(model@, st@[i as int]));
            }
            let res = update_by_ids(&mut st.collections[i], model, ids, ops);
            proof {
                assert(final(st)@ =~= old(st)@.update(i as int, st@[i as int]));
                assert forall|j: int|
                    0 <= j < old(st)@.len() implies #[trigger] st@[j].name == old(st)@[j].name by {
                    if j != i {
                        assert(st@[j] == old(st)@[j]);
                    }
                }
                if store_has(st@, model@.db_name) {
                    let k = store_index(st@, model@.db_name);
                    assert(st@[k].name == model@.db_name);
                    assert(k == i as int) by {
                        if k != i {
                            assert(st@[k] == old(st)@[k]);
                            assert(old(st)@[k].name == old(st)@[i as int].name);
                        }
                    }
                }
            }
            match res {
                Ok(_) => {
                    proof {
                        assert(spec_update_coll_in_store(
                            model@,
                            old(st)@,
                            vals_view(ids@),
                            ops_view(ops@),
                        ) matches Ok(s1) && s1 =~= st@);
                    }
                    Ok(())
                },
                Err(f) => Err(f),
            }
        },
        Option::None => Ok(()),
    }
}

/// The one native update that adds these values, set-semantics, to the
/// parent's relation array.
pub open spec fn spec_connect_parent_ops(rel: RelationV, cvs: Seq<ValueV>) -> Seq<UpdateOpV> {
    seq![UpdateOpV { field: rel.parent_array_field, action: UpdateActionV::AddToSet(cvs) }]
}

/// The one native update that adds the parent's key, set-semantics, to a
/// child's relation array.
pub open spec fn spec_connect_child_ops(rel: RelationV, pv: ValueV) -> Seq<UpdateOpV> {
    seq![UpdateOpV { field: rel.child_array_field, action: UpdateActionV::AddToSet(seq![pv]) }]
}

/// The one native update that removes these values from the parent's
/// relation array.
pub open spec fn spec_disconnect_parent_ops(rel: RelationV, cvs: Seq<ValueV>) -> Seq<UpdateOpV> {
    seq![UpdateOpV { field: rel.parent_array_field, action: UpdateActionV::PullAll(cvs) }]
}

/// The one native update that removes the parent's key from a child's
/// relation array.
pub open spec fn spec_disconnect_child_ops(rel: RelationV, pv: ValueV) -> Seq<UpdateOpV> {
    seq![UpdateOpV { field: rel.child_array_field, action: UpdateActionV::PullAll(seq![pv]) }]
}

/// What connecting does: the parent record, when present, gains each child
/// key at most once in its relation array; then, symmetrically, each child
/// record present gains the parent key. Two independent writes, no shared
/// transaction: a fault between them leaves the first applied.
pub open spec fn spec_m2m_connect(s: StoreV, rel: RelationV, pv: ValueV, cvs: Seq<ValueV>) -> Result<
    StoreV,
    StoreFault,
> {
    match spec_update_coll_in_store(rel.parent_model, s, seq![pv], spec_connect_parent_ops(
        rel,
        cvs,
    )) {
        Err(f) => Err(f),
        Ok(s1) => spec_update_coll_in_store(
            rel.child_model,
            s1,
            cvs,
            spec_connect_child_ops(rel, pv),
        ),
    }
}

/// The mirror of connecting, with array removal in place of set-addition.
pub open spec fn spec_m2m_disconnect(s: StoreV, rel: RelationV, pv: ValueV, cvs: Seq<ValueV>) -> Result<
    StoreV,
    StoreFault,
> {
    match spec_update_coll_in_store(rel.parent_model, s, seq![pv], spec_disconnect_parent_ops(
        rel,
        cvs,
    )) {
        Err(f) => Err(f),
        Ok(s1) => spec_update_coll_in_store(
            rel.child_model,
            s1,
            cvs,
            spec_disconnect_child_ops(rel, pv),
        ),
    }
}

/// Connects child records to a parent through a many-to-many relation: adds
/// every child key to the parent's relation array with set semantics, then
/// adds the parent key to each affected child's own array. The two writes are
/// independent; a fault between them is a known limitation and leaves the
/// first applied.
pub fn m2m_connect(
    st: &mut Store,
    rel: &RelationField,
    parent_id: &SelectionResult,
    child_ids: &Vec<SelectionResult>,
) -> (r: Result<(), Error>)
    requires
        store_wf(old(st)@),
        store_coll_wf(old(st)@, rel@.parent_model),
        store_coll_wf(old(st)@, rel@.child_model),
        rel@.wf(),
        parent_id.wf(),
        forall|i: int| 0 <= i < child_ids@.len() ==> (#[trigger] child_ids@[i])@.len() >= 1,
        rel@.parent_model.db_name == rel@.child_model.db_name ==> rel@.parent_model
            == rel@.child_model,
    ensures
        store_wf(final(st)@),
        store_coll_wf(final(st)@, rel@.parent_model),
        store_coll_wf(final(st)@, rel@.child_model),
        ({
            let pv = parent_id@[0].1;
            let cvs = spec_selector_ids(sels_view(child_ids@));
            match r {
                Ok(_) => spec_m2m_connect(old(st)@, rel@, pv, cvs) == Ok::<_, StoreFault>(
                    final(st)@,
                ),
                Err(e) => match spec_m2m_connect(old(st)@, rel@, pv, cvs) {
                    Err(f) => e == fault_error(f),
                    Ok(_) => false,
                },
            }
        }),
{
    let ghost pvv = parent_id@[0].1;
    let ghost cvsv = spec_selector_ids(sels_view(child_ids@));
    let pv = value_dup(parent_id.first_value());
    let cvs = selectors_to_values(child_ids);
    proof {
        assert(vals_view(cvs@) == cvsv);
    }

    // First add all child keys to the parent's relation array.
    let mut pids: Vec<Value> = Vec::new();
    pids.push(value_dup(&pv));
    let mut parent_ops: Vec<UpdateOp> = Vec::new();
    parent_ops.push(
        UpdateOp {
            field: rel.parent_array_field,
            action: UpdateAction::AddToSet(crate::store::values_dup(&cvs)),
        },
    );
    proof {
        assert(vals_view(pids@) =~= seq![pvv]);
        assert(ops_view(parent_ops@) =~= spec_connect_parent_ops(rel@, cvsv));
        assert(ops_valid(rel@.parent_model, ops_view(parent_ops@)));
    }
    match update_collection_in_store(st, &rel.parent_model, &pids, &parent_ops) {
        Err(f) => {
            proof {
                lemma_other_coll_preserved_cases(old(st)@, st@, rel@);
            }
            return Err(fault_to_error(f));
        },
        Ok(_) => {},
    }
    let ghost s1 = st@;
    proof {
        lemma_other_coll_preserved_cases(old(st)@, st@, rel@);
    }

    // Then, symmetrically, add the parent key to each affected child.
    let mut child_ops: Vec<UpdateOp> = Vec::new();
    let mut pvec: Vec<Value> = Vec::new();
    pvec.push(value_dup(&pv));
    child_ops.push(
        UpdateOp { field: rel.child_array_field, action: UpdateAction::AddToSet(pvec) },
    );
    proof {
        assert(ops_view(child_ops@) =~~= spec_connect_child_ops(rel@, pvv));
        assert(ops_valid(rel@.child_model, ops_view(child_ops@)));
    }
    match update_collection_in_store(st, &rel.child_model, &cvs, &child_ops) {
        Err(f) => {
            proof {
                lemma_other_coll_preserved_cases_child(s1, st@, rel@);
            }
            Err(fault_to_error(f))
        },
        Ok(_) => {
            proof {
                lemma_other_coll_preserved_cases_child(s1, st@, rel@);
            }
            Ok(())
        },
    }
}

/// After the parent-side write, the child model's collection is still well
/// formed: untouched when the names differ, covered by the touched
/// collection's preservation when they coincide.
pub proof fn lemma_other_coll_preserved_cases(s0: StoreV, s1: StoreV, rel: RelationV)
    requires
        store_wf(s0),
        store_coll_wf(s0, rel.child_model),
        store_coll_wf(s1, rel.parent_model),
        rel.parent_model.db_name == rel.child_model.db_name ==> rel.parent_model
            == rel.child_model,
        s1.len() == s0.len(),
        forall|j: int| 0 <= j < s0.len() ==> #[trigger] s1[j].name == s0[j].name,
        forall|j: int|
            0 <= j < s0.len() ==> s0[j].name != rel.parent_model.db_name ==> #[trigger] s1[j]
                == s0[j],
    ensures
        store_coll_wf(s1, rel.child_model),
{
    if rel.parent_model.db_name == rel.child_model.db_name {
    } else {
        lemma_other_coll_preserved(s0, s1, rel.parent_model.db_name, rel.child_model);
    }
}

/// After the child-side write, the parent model's collection is still well
/// formed, by the mirror argument.
pub proof fn lemma_other_coll_preserved_cases_child(s0: StoreV, s1: StoreV, rel: RelationV)
    requires
        store_wf(s0),
        store_coll_wf(s0, rel.parent_model),
        store_coll_wf(s1, rel.child_model),
        rel.parent_model.db_name == rel.child_model.db_name ==> rel.parent_model
            == rel.child_model,
        s1.len() == s0.len(),
        forall|j: int| 0 <= j < s0.len() ==> #[trigger] s1[j].name == s0[j].name,
        forall|j: int|
            0 <= j < s0.len() ==> s0[j].name != rel.child_model.db_name ==> #[trigger] s1[j]
                == s0[j],
    ensures
        store_coll_wf(s1, rel.parent_model),
{
    if rel.parent_model.db_name == rel.child_model.db_name {
    } else {
        lemma_other_coll_preserved(s0, s1, rel.child_model.db_name, rel.parent_model);
    }
}

/// Disconnects child records from a parent through a many-to-many relation:
/// removes every matching child key from the parent's relation array, then
/// removes the parent key from each affected child's own array; removal is by
/// value, not by position. The two writes are independent; a fault between
/// them is a known limitation and leaves the first applied.
pub fn m2m_disconnect(
    st: &mut Store,
    rel: &RelationField,
    parent_id: &SelectionResult,
    child_ids: &Vec<SelectionResult>,
) -> (r: Result<(), Error>)
    requires
        store_wf(old(st)@),
        store_coll_wf(old(st)@, rel@.parent_model),
        store_coll_wf(old(st)@, rel@.child_model),
        rel@.wf(),
        parent_id.wf(),
        forall|i: int| 0 <= i < child_ids@.len() ==> (#[trigger] child_ids@[i])@.len() >= 1,
        rel@.parent_model.db_name == rel@.child_model.db_name ==> rel@.parent_model
            == rel@.child_model,
    ensures
        store_wf(final(st)@),
        store_coll_wf(final(st)@, rel@.parent_model),
        store_coll_wf(final(st)@, rel@.child_model),
        ({
            let pv = parent_id@[0].1;
            let cvs = spec_selector_ids(sels_view(child_ids@));
            match r {
                Ok(_) => spec_m2m_disconnect(old(st)@, rel@, pv, cvs) == Ok::<_, StoreFault>(
                    final(st)@,
                ),
                Err(e) => match spec_m2m_disconnect(old(st)@, rel@, pv, cvs) {
                    Err(f) => e == fault_error(f),
                    Ok(_) => false,
                },
            }
        }),
{
    let ghost pvv = parent_id@[0].1;
    let ghost cvsv = spec_selector_ids(sels_view(child_ids@));
    let pv = value_dup(parent_id.first_value());
    let cvs = selectors_to_values(child_ids);
    proof {
        assert(vals_view(cvs@) == cvsv);
    }

    // First remove all matching child keys from the parent's relation array.
    let mut pids: Vec<Value> = Vec::new();
    pids.push(value_dup(&pv));
    let mut parent_ops: Vec<UpdateOp> = Vec::new();
    parent_ops.push(
        UpdateOp {
            field: rel.parent_array_field,
            action: UpdateAction::PullAll(crate::store::values_dup(&cvs)),
        },
    );
    proof {
        assert(vals_view(pids@) =~= seq![pvv]);
        assert(ops_view(parent_ops@) =~= spec_disconnect_parent_ops(rel@, cvsv));
        assert(ops_valid(rel@.parent_model, ops_view(parent_ops@)));
    }
    match update_collection_in_store(st, &rel.parent_model, &pids, &parent_ops) {
        Err(f) => {
            proof {
                lemma_other_coll_preserved_cases(old(st)@, st@, rel@);
            }
            return Err(fault_to_error(f));
        },
        Ok(_) => {},
    }
    let ghost s1 = st@;
    proof {
        lemma_other_coll_preserved_cases(old(st)@, st@, rel@);
    }

    // Then remove the parent key from each affected child.
    let mut child_ops: Vec<UpdateOp> = Vec::new();
    let mut pvec: Vec<Value> = Vec::new();
    pvec.push(value_dup(&pv));
    child_ops.push(UpdateOp { field: rel.child_array_field, action: UpdateAction::PullAll(pvec) });
    proof {
        assert(ops_view(child_ops@) =~~= spec_disconnect_child_ops(rel@, pvv));
        assert(ops_valid(rel@.child_model, ops_view(child_ops@)));
    }
    match update_collection_in_store(st, &rel.child_model, &cvs, &child_ops) {
        Err(f) => {
            proof {
                lemma_other_coll_preserved_cases_child(s1, st@, rel@);
            }
            Err(fault_to_error(f))
        },
        Ok(_) => {
            proof {
                lemma_other_coll_preserved_cases_child(s1, st@, rel@);
            }
            Ok(())
        },
    }
}

} // verus!
