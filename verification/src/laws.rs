//! Laws of the write executor, stated over the same mathematical models the
//! executor's contracts use and proved once for all inputs.
use vstd::prelude::*;
use crate::args::{args_has, ArgsV};
use crate::filter::{spec_matches, FilterV, RecordFilterV};
use crate::model::{ModelV, RelationV};
use crate::store::{
    coll_wf, count_matching, doc_id, doc_wf, insert_ready, seq_contains, spec_delete_many,
    spec_insert_one, CollectionV, DocV, StoreFault,
};
use crate::value::{DocValueV, ValueV};
use crate::store::lemma_delete_many_props;
use crate::store::{add_to_set_seq, pull_all_seq, spec_apply_ops, spec_update_many, store_has, store_index, store_wf, store_coll_wf, StoreV, UpdateActionV, UpdateOpV};
use crate::write::{
    all_duplicate_faults, lemma_build_doc, spec_build_doc, spec_build_ops, spec_connect_child_ops,
    spec_connect_parent_ops, spec_convert_literal, spec_delete_records, spec_disconnect_child_ops,
    spec_disconnect_parent_ops, spec_filter_ids, spec_insert_many, spec_m2m_connect,
    spec_m2m_disconnect, spec_resolve, spec_update_coll_in_store,
};

verus! {

/// Creating a record writes exactly the fields present in the Write Argument
/// Set and no others — no implicit nulls — and stores the acknowledged
/// primary key in the key slot: the document appended by a successful create
/// carries a field exactly where the argument set names one (besides the key
/// itself), with the converted value, and its key slot holds the acknowledged
/// key, which equals the explicit key value when one was supplied.
pub proof fn law_create_writes_exactly_args(m: ModelV, c: CollectionV, a: ArgsV)
    requires
        m.wf(),
        coll_wf(m, c),
    ensures
        match spec_build_doc(m, a) {
            Ok(d) => match spec_insert_one(m, c, d) {
                Ok((c2, id)) => {
                    let stored = c2.records.last();
                    &&& c2.records == c.records.push(stored)
                    &&& stored[m.id_field] == Option::Some(DocValueV::Scalar(id))
                    &&& forall|i: int|
                        0 <= i < m.fields.len() && i != m.id_field ==> #[trigger] stored[i] == (
                        if args_has(a, m.fields[i].db_name) {
                            spec_convert_literal(m.fields[i], crate::args::args_value(
                                a,
                                m.fields[i].db_name,
                            ))
                        } else {
                            Option::None
                        })
                    &&& (args_has(a, m.fields[m.id_field].db_name) ==> d[m.id_field]
                        == Option::Some(DocValueV::Scalar(id)))
                },
                Err(_) => true,
            },
            Err(_) => true,
        },
{
    lemma_build_doc(m, a);
    match spec_build_doc(m, a) {
        Ok(d) => match spec_insert_one(m, c, d) {
            Ok((c2, id)) => {
                assert(c2.records.last() == c2.records[c2.records.len() - 1]);
                let stored = c2.records.last();
                match d[m.id_field] {
                    Option::Some(DocValueV::Scalar(_)) => {
                        assert(stored == d);
                    },
                    _ => {
                        assert(stored == d.update(
                            m.id_field,
                            Option::Some(DocValueV::Scalar(id)),
                        ));
                    },
                }
                if args_has(a, m.fields[m.id_field].db_name) {
                    assert(d[m.id_field] == spec_convert_literal(
                        m.fields[m.id_field],
                        crate::args::args_value(a, m.fields[m.id_field].db_name),
                    ));
                }
                assert forall|i: int|
                    0 <= i < m.fields.len() && i != m.id_field implies #[trigger] stored[i] == (
                if args_has(a, m.fields[i].db_name) {
                    spec_convert_literal(m.fields[i], crate::args::args_value(
                        a,
                        m.fields[i].db_name,
                    ))
                } else {
                    Option::None
                }) by {
                    assert(stored[i] == d[i]);
                }
            },
            Err(_) => {},
        },
        Err(_) => {},
    }
}

/// Bulk insert with duplicate skipping: when every per-document fault of the
/// unordered batch carries the duplicate-key code, the number created is the
/// batch size minus the number of conflicting documents. (That a batch whose
/// failure report carries any other code fails outright is the contract of
/// `absorb_duplicate_faults`.)
pub proof fn law_duplicate_skip_counts(m: ModelV, c: CollectionV, docs: Seq<DocV>)
    requires
        coll_wf(m, c),
        forall|j: int| 0 <= j < docs.len() ==> insert_ready(m, #[trigger] docs[j]),
    ensures
        ({
            let (c2, k, fs) = spec_insert_many(m, c, docs, false);
            all_duplicate_faults(fs) ==> k + fs.len() == docs.len()
        }),
{
    crate::write::lemma_insert_many_wf(m, c, docs, false);
}

/// A filter that matches no document resolves to no keys, and conversely.
pub proof fn law_filter_ids_empty(m: ModelV, recs: Seq<DocV>, f: FilterV)
    ensures
        (spec_filter_ids(m, recs, f).len() == 0) <==> (forall|i: int|
            0 <= i < recs.len() ==> !spec_matches(m, #[trigger] recs[i], f)),
    decreases recs.len(),
{
    if recs.len() > 0 {
        law_filter_ids_empty(m, recs.drop_last(), f);
        assert(recs[recs.len() - 1] == recs.last());
        if spec_filter_ids(m, recs, f).len() == 0 {
            assert forall|i: int|
                0 <= i < recs.len() implies !spec_matches(m, #[trigger] recs[i], f) by {
                if i < recs.len() - 1 {
                    assert(recs.drop_last()[i] == recs[i]);
                }
            }
        }
        if forall|i: int| 0 <= i < recs.len() ==> !spec_matches(m, #[trigger] recs[i], f) {
            assert forall|i: int|
                0 <= i < recs.drop_last().len() implies !spec_matches(
                m,
                #[trigger] recs.drop_last()[i],
                f,
            ) by {
                assert(recs.drop_last()[i] == recs[i]);
            }
            assert(spec_filter_ids(m, recs.drop_last(), f).len() == 0);
            assert(!spec_matches(m, recs.last(), f));
        }
    }
}

/// Updating against a filter that matches no record resolves to no keys;
/// `update_records` then returns the empty sequence and leaves the collection
/// untouched (its contract's empty-resolution case), issuing no write.
pub proof fn law_update_zero_matches(m: ModelV, c: CollectionV, rf: RecordFilterV)
    requires
        rf.selectors is None,
        forall|i: int| 0 <= i < c.records.len() ==> !spec_matches(m, #[trigger] c.records[i], rf.filter),
    ensures
        spec_resolve(m, c, rf).len() == 0,
{
    law_filter_ids_empty(m, c.records, rf.filter);
}

/// An empty Write Argument Set translates to no native update operation at
/// all; `update_records` then skips the write and still reports the resolved
/// keys (its contract's no-operation case).
pub proof fn law_empty_args_build_no_ops(m: ModelV, a: ArgsV)
    requires
        a.len() == 0,
    ensures
        spec_build_ops(m, a) == Ok::<_, int>(Seq::<crate::store::UpdateOpV>::empty()),
{
    lemma_no_ops_upto(m, a, m.fields.len() as int);
}

/// Inductive core of `law_empty_args_build_no_ops`.
proof fn lemma_no_ops_upto(m: ModelV, a: ArgsV, n: int)
    requires
        a.len() == 0,
        0 <= n,
    ensures
        crate::write::spec_build_ops_upto(m, a, n) == Ok::<_, int>(
            Seq::<crate::store::UpdateOpV>::empty(),
        ),
    decreases n,
{
    if n > 0 {
        lemma_no_ops_upto(m, a, n - 1);
    }
}

/// Every matching document's key is among the resolved keys.
pub proof fn law_filter_ids_complete(m: ModelV, recs: Seq<DocV>, f: FilterV, i: int)
    requires
        0 <= i < recs.len(),
        spec_matches(m, recs[i], f),
    ensures
        seq_contains(spec_filter_ids(m, recs, f), doc_id(m, recs[i])),
    decreases recs.len(),
{
    let ids = spec_filter_ids(m, recs, f);
    let prior = spec_filter_ids(m, recs.drop_last(), f);
    if i == recs.len() - 1 {
        assert(recs[i] == recs.last());
        assert(ids[prior.len() as int] == doc_id(m, recs[i]));
    } else {
        assert(recs.drop_last()[i] == recs[i]);
        law_filter_ids_complete(m, recs.drop_last(), f, i);
        let j = choose|j: int| 0 <= j < prior.len() && prior[j] == doc_id(m, recs[i]);
        assert(ids[j] == doc_id(m, recs[i]));
    }
}

/// Every resolved key is the key of some matching document.
pub proof fn law_filter_ids_sound(m: ModelV, recs: Seq<DocV>, f: FilterV, v: ValueV)
    requires
        seq_contains(spec_filter_ids(m, recs, f), v),
    ensures
        exists|j: int|
            0 <= j < recs.len() && doc_id(m, #[trigger] recs[j]) == v && spec_matches(
                m,
                recs[j],
                f,
            ),
    decreases recs.len(),
{
    let ids = spec_filter_ids(m, recs, f);
    let prior = spec_filter_ids(m, recs.drop_last(), f);
    if recs.len() > 0 {
        let k = choose|k: int| 0 <= k < ids.len() && ids[k] == v;
        if k < prior.len() {
            assert(prior[k] == v);
            law_filter_ids_sound(m, recs.drop_last(), f, v);
            let j = choose|j: int|
                0 <= j < recs.drop_last().len() && doc_id(m, #[trigger] recs.drop_last()[j]) == v
                    && spec_matches(m, recs.drop_last()[j], f);
            assert(recs.drop_last()[j] == recs[j]);
            assert(doc_id(m, recs[j]) == v && spec_matches(m, recs[j], f));
        } else {
            assert(spec_matches(m, recs.last(), f));
            assert(ids[k] == doc_id(m, recs.last()));
            assert(recs[recs.len() - 1] == recs.last());
        }
    }
}

/// When the keys of matching documents are exactly the given keys, the number
/// of documents carrying one of the keys is the number of resolved keys.
proof fn lemma_count_matching_is_filter_len(
    m: ModelV,
    recs: Seq<DocV>,
    f: FilterV,
    ids: Seq<ValueV>,
)
    requires
        forall|i: int|
            0 <= i < recs.len() ==> (seq_contains(ids, doc_id(m, #[trigger] recs[i]))
                <==> spec_matches(m, recs[i], f)),
    ensures
        count_matching(m, recs, ids) == spec_filter_ids(m, recs, f).len(),
    decreases recs.len(),
{
    if recs.len() > 0 {
        assert(forall|i: int|
            0 <= i < recs.drop_last().len() ==> #[trigger] recs.drop_last()[i] == recs[i]);
        lemma_count_matching_is_filter_len(m, recs.drop_last(), f, ids);
        assert(recs[recs.len() - 1] == recs.last());
    }
}

/// Deleting by a filter removes exactly the matching documents and reports
/// their number.
pub proof fn law_delete_reports_matched(m: ModelV, c: CollectionV, rf: RecordFilterV)
    requires
        m.wf(),
        coll_wf(m, c),
        rf.selectors is None,
    ensures
        spec_delete_records(m, c, rf).1 == spec_filter_ids(m, c.records, rf.filter).len(),
        ({
            let rs = spec_delete_records(m, c, rf).0.records;
            forall|i: int|
                0 <= i < rs.len() ==> !spec_matches(m, #[trigger] rs[i], rf.filter)
        }),
{
    let ids = spec_filter_ids(m, c.records, rf.filter);
    assert forall|i: int|
        0 <= i < c.records.len() implies (seq_contains(ids, doc_id(m, #[trigger] c.records[i]))
        <==> spec_matches(m, c.records[i], rf.filter)) by {
        if spec_matches(m, c.records[i], rf.filter) {
            law_filter_ids_complete(m, c.records, rf.filter, i);
        }
        if seq_contains(ids, doc_id(m, c.records[i])) {
            law_filter_ids_sound(m, c.records, rf.filter, doc_id(m, c.records[i]));
            let j = choose|j: int|
                0 <= j < c.records.len() && doc_id(m, #[trigger] c.records[j]) == doc_id(
                    m,
                    c.records[i],
                ) && spec_matches(m, c.records[j], rf.filter);
            assert(j == i);
        }
    }
    lemma_count_matching_is_filter_len(m, c.records, rf.filter, ids);
    if ids.len() == 0 {
        law_filter_ids_empty(m, c.records, rf.filter);
        assert(spec_delete_records(m, c, rf).1 == 0);
    } else {
        lemma_delete_many_props(m, c.records, ids);
        let (rs, k) = spec_delete_many(m, c.records, ids);
        assert forall|i: int|
            0 <= i < rs.len() implies !spec_matches(m, #[trigger] rs[i], rf.filter) by {
            let j = choose|j: int| 0 <= j < c.records.len() && rs[i] == c.records[j];
            assert(!seq_contains(ids, doc_id(m, c.records[j])));
        }
    }
}

/// Deleting is idempotent from the second call onward: deleting by a filter,
/// then deleting by the same filter again, reports zero the second time.
pub proof fn law_delete_twice_reports_zero(m: ModelV, c: CollectionV, rf: RecordFilterV)
    requires
        m.wf(),
        coll_wf(m, c),
    ensures
        spec_delete_records(m, spec_delete_records(m, c, rf).0, rf).1 == 0,
{
    let ids = spec_resolve(m, c, rf);
    let (c1, k) = spec_delete_records(m, c, rf);
    if ids.len() == 0 {
        assert(c1 == c);
    } else {
        lemma_delete_many_props(m, c.records, ids);
        let (rs, kk) = spec_delete_many(m, c.records, ids);
        assert(c1.records == rs);
        match rf.selectors {
            Option::Some(_) => {
                // The same explicit keys resolve again; nothing carrying them
                // remains.
                let ids2 = spec_resolve(m, c1, rf);
                assert(ids2 == ids);
                lemma_count_matching_none(m, rs, ids);
                lemma_delete_many_props(m, rs, ids);
            },
            Option::None => {
                // No surviving document matches the filter, so it resolves to
                // no keys at all.
                assert forall|i: int|
                    0 <= i < rs.len() implies !spec_matches(m, #[trigger] rs[i], rf.filter) by {
                    if spec_matches(m, rs[i], rf.filter) {
                        let j = choose|j: int| 0 <= j < c.records.len() && rs[i] == c.records[j];
                        law_filter_ids_complete(m, c.records, rf.filter, j);
                        assert(seq_contains(ids, doc_id(m, rs[i])));
                    }
                }
                law_filter_ids_empty(m, rs, rf.filter);
                assert(spec_resolve(m, c1, rf).len() == 0);
            },
        }
    }
}

/// No document carrying one of the keys means a matched count of zero.
proof fn lemma_count_matching_none(m: ModelV, recs: Seq<DocV>, ids: Seq<ValueV>)
    requires
        forall|i: int| 0 <= i < recs.len() ==> !seq_contains(ids, doc_id(m, #[trigger] recs[i])),
    ensures
        count_matching(m, recs, ids) == 0,
    decreases recs.len(),
{
    if recs.len() > 0 {
        assert(forall|i: int|
            0 <= i < recs.drop_last().len() ==> #[trigger] recs.drop_last()[i] == recs[i]);
        lemma_count_matching_none(m, recs.drop_last(), ids);
        assert(recs[recs.len() - 1] == recs.last());
    }
}

/// Membership survives widening back from a dropped-last sequence.
proof fn lemma_contains_drop_last(vs: Seq<ValueV>, x: ValueV)
    requires
        vs.len() > 0,
        seq_contains(vs.drop_last(), x),
    ensures
        seq_contains(vs, x),
{
    let j = choose|j: int| 0 <= j < vs.drop_last().len() && vs.drop_last()[j] == x;
    assert(vs[j] == x);
}

/// Set-semantics addition appends only: the original members stay in place,
/// and everything appended is one of the added values.
proof fn lemma_add_to_set_shape(xs: Seq<ValueV>, vs: Seq<ValueV>)
    ensures
        ({
            let r = add_to_set_seq(xs, vs);
            &&& r.len() >= xs.len()
            &&& r.take(xs.len() as int) == xs
            &&& forall|j: int| xs.len() <= j < r.len() ==> seq_contains(vs, #[trigger] r[j])
        }),
    decreases vs.len(),
{
    let r = add_to_set_seq(xs, vs);
    if vs.len() == 0 {
        assert(r.take(xs.len() as int) =~= xs);
    } else {
        lemma_add_to_set_shape(xs, vs.drop_last());
        let prior = add_to_set_seq(xs, vs.drop_last());
        if seq_contains(prior, vs.last()) {
            assert forall|j: int| xs.len() <= j < r.len() implies seq_contains(
                vs,
                #[trigger] r[j],
            ) by {
                lemma_contains_drop_last(vs, r[j]);
            }
        } else {
            assert(r == prior.push(vs.last()));
            assert(r.take(xs.len() as int) =~= prior.take(xs.len() as int));
            assert forall|j: int| xs.len() <= j < r.len() implies seq_contains(
                vs,
                #[trigger] r[j],
            ) by {
                if j < prior.len() {
                    assert(r[j] == prior[j]);
                    lemma_contains_drop_last(vs, r[j]);
                } else {
                    assert(r[j] == vs.last());
                    assert(vs[vs.len() - 1] == vs.last());
                }
            }
        }
    }
}

/// Array removal distributes over concatenation.
proof fn lemma_pull_concat(a: Seq<ValueV>, b: Seq<ValueV>, vs: Seq<ValueV>)
    ensures
        pull_all_seq(a + b, vs) == pull_all_seq(a, vs) + pull_all_seq(b, vs),
    decreases b.len(),
{
    if b.len() == 0 {
        assert(a + b =~= a);
        assert(pull_all_seq(a, vs) + pull_all_seq(b, vs) =~= pull_all_seq(a, vs));
    } else {
        lemma_pull_concat(a, b.drop_last(), vs);
        assert((a + b).drop_last() =~= a + b.drop_last());
        assert((a + b).last() == b.last());
        if seq_contains(vs, b.last()) {
        } else {
            assert(pull_all_seq(a, vs) + pull_all_seq(b, vs) =~= (pull_all_seq(a, vs)
                + pull_all_seq(b.drop_last(), vs)).push(b.last()));
        }
    }
}

/// Removing values that occur nowhere changes nothing.
proof fn lemma_pull_none(xs: Seq<ValueV>, vs: Seq<ValueV>)
    requires
        forall|j: int| 0 <= j < xs.len() ==> !seq_contains(vs, #[trigger] xs[j]),
    ensures
        pull_all_seq(xs, vs) == xs,
    decreases xs.len(),
{
    if xs.len() > 0 {
        assert(forall|j: int|
            0 <= j < xs.drop_last().len() ==> #[trigger] xs.drop_last()[j] == xs[j]);
        lemma_pull_none(xs.drop_last(), vs);
        assert(xs[xs.len() - 1] == xs.last());
        assert(pull_all_seq(xs, vs) =~= xs);
    }
}

/// Removing values that cover the whole array empties it.
proof fn lemma_pull_members(e: Seq<ValueV>, vs: Seq<ValueV>)
    requires
        forall|j: int| 0 <= j < e.len() ==> seq_contains(vs, #[trigger] e[j]),
    ensures
        pull_all_seq(e, vs) == Seq::<ValueV>::empty(),
    decreases e.len(),
{
    if e.len() > 0 {
        assert(forall|j: int| 0 <= j < e.drop_last().len() ==> #[trigger] e.drop_last()[j] == e[j]);
        lemma_pull_members(e.drop_last(), vs);
        assert(e[e.len() - 1] == e.last());
    }
}

/// The relation-array round trip: adding values with set semantics to an
/// array holding none of them, then removing exactly those values, restores
/// the array.
pub proof fn law_add_pull_roundtrip(xs: Seq<ValueV>, vs: Seq<ValueV>)
    requires
        forall|j: int| 0 <= j < xs.len() ==> !seq_contains(vs, #[trigger] xs[j]),
    ensures
        pull_all_seq(add_to_set_seq(xs, vs), vs) == xs,
{
    let r = add_to_set_seq(xs, vs);
    lemma_add_to_set_shape(xs, vs);
    let e = r.skip(xs.len() as int);
    assert(r =~= xs + e);
    lemma_pull_concat(xs, e, vs);
    lemma_pull_none(xs, vs);
    assert(forall|j: int| 0 <= j < e.len() ==> seq_contains(vs, #[trigger] e[j]) && e[j] == r[j + xs.len()]);
    lemma_pull_members(e, vs);
    assert(pull_all_seq(r, vs) =~= xs);
}

/// Whether a document field is an array holding none of the given values.
pub open spec fn array_fresh(d: DocV, f: int, vs: Seq<ValueV>) -> bool {
    match d[f] {
        Option::Some(DocValueV::Array(xs)) => forall|j: int|
            0 <= j < xs.len() ==> !seq_contains(vs, #[trigger] xs[j]),
        _ => false,
    }
}

/// The one-document round trip: the set-add of fresh values to an array
/// field, undone by removing exactly those values.
proof fn lemma_apply_add_then_pull(d: DocV, f: int, vs: Seq<ValueV>)
    requires
        0 <= f < d.len(),
        array_fresh(d, f, vs),
    ensures
        ({
            let aop = UpdateOpV { field: f, action: UpdateActionV::AddToSet(vs) };
            let pop = UpdateOpV { field: f, action: UpdateActionV::PullAll(vs) };
            match spec_apply_ops(d, seq![aop]) {
                Ok(d2) => d2.len() == d.len() && spec_apply_ops(d2, seq![pop]) == Ok::<
                    _,
                    StoreFault,
                >(d) && (forall|q: int| 0 <= q < d.len() && q != f ==> #[trigger] d2[q] == d[q]),
                Err(_) => false,
            }
        }),
{
    let aop = UpdateOpV { field: f, action: UpdateActionV::AddToSet(vs) };
    let pop = UpdateOpV { field: f, action: UpdateActionV::PullAll(vs) };
    assert(seq![aop].drop_last() =~= Seq::<UpdateOpV>::empty());
    assert(seq![pop].drop_last() =~= Seq::<UpdateOpV>::empty());
    assert(seq![aop].last() == aop);
    assert(seq![pop].last() == pop);
    assert(spec_apply_ops(d, Seq::<UpdateOpV>::empty()) == Ok::<_, StoreFault>(d));
    match d[f] {
        Option::Some(DocValueV::Array(xs)) => {
            law_add_pull_roundtrip(xs, vs);
            let d2 = d.update(f, Option::Some(DocValueV::Array(add_to_set_seq(xs, vs))));
            assert(spec_apply_ops(d, seq![aop].drop_last()) == Ok::<_, StoreFault>(d));
            assert(spec_apply_ops(d, seq![aop]) == Ok::<_, StoreFault>(d2));
            assert(spec_apply_ops(d2, Seq::<UpdateOpV>::empty()) == Ok::<_, StoreFault>(d2));
            assert(spec_apply_ops(d2, seq![pop].drop_last()) == Ok::<_, StoreFault>(d2));
            assert(d2[f] == Option::Some(DocValueV::Array(add_to_set_seq(xs, vs))));
            assert(d2.update(f, Option::Some(DocValueV::Array(xs))) =~= d);
            assert(spec_apply_ops(d2, seq![pop]) == Ok::<_, StoreFault>(d));
        },
        _ => {
            assert(false);
        },
    }
}

/// The one-collection round trip: a bulk set-add of fresh values to the
/// matched documents' array field, undone by the mirroring bulk removal.
proof fn lemma_update_many_roundtrip(
    m: ModelV,
    recs: Seq<DocV>,
    ids: Seq<ValueV>,
    f: int,
    vs: Seq<ValueV>,
)
    requires
        m.wf(),
        0 <= f,
        f != m.id_field,
        forall|i: int| 0 <= i < recs.len() ==> doc_wf(m, #[trigger] recs[i]),
        forall|i: int|
            0 <= i < recs.len() && seq_contains(ids, doc_id(m, #[trigger] recs[i])) ==> f
                < recs[i].len() && array_fresh(recs[i], f, vs),
    ensures
        ({
            let aops = seq![UpdateOpV { field: f, action: UpdateActionV::AddToSet(vs) }];
            let pops = seq![UpdateOpV { field: f, action: UpdateActionV::PullAll(vs) }];
            match spec_update_many(m, recs, ids, aops) {
                Ok((rs, k)) => spec_update_many(m, rs, ids, pops) == Ok::<_, StoreFault>((recs, k)),
                Err(_) => false,
            }
        }),
    decreases recs.len(),
{
    let aops = seq![UpdateOpV { field: f, action: UpdateActionV::AddToSet(vs) }];
    let pops = seq![UpdateOpV { field: f, action: UpdateActionV::PullAll(vs) }];
    if recs.len() == 0 {
        assert(spec_update_many(m, recs, ids, aops) == Ok::<_, StoreFault>((
            Seq::<DocV>::empty(),
            0nat,
        )));
        assert(spec_update_many(m, Seq::<DocV>::empty(), ids, pops) == Ok::<_, StoreFault>((
            Seq::<DocV>::empty(),
            0nat,
        )));
        assert(Seq::<DocV>::empty() =~= recs);
    } else {
        assert(forall|i: int|
            0 <= i < recs.drop_last().len() ==> #[trigger] recs.drop_last()[i] == recs[i]);
        lemma_update_many_roundtrip(m, recs.drop_last(), ids, f, vs);
        let d = recs.last();
        assert(d == recs[recs.len() - 1]);
        assert(doc_wf(m, d));
        match spec_update_many(m, recs.drop_last(), ids, aops) {
            Ok((rs0, k0)) => {
                if seq_contains(ids, doc_id(m, d)) {
                    lemma_apply_add_then_pull(d, f, vs);
                    match spec_apply_ops(d, aops) {
                        Ok(d2) => {
                            let rs = rs0.push(d2);
                            assert(spec_update_many(m, recs, ids, aops) == Ok::<_, StoreFault>((
                                rs,
                                (k0 + 1) as nat,
                            )));
                            assert(rs.drop_last() =~= rs0);
                            assert(rs.last() == d2);
                            assert(doc_id(m, d2) == doc_id(m, d));
                            assert(spec_apply_ops(d2, pops) == Ok::<_, StoreFault>(d));
                            assert(spec_update_many(m, rs, ids, pops) == Ok::<_, StoreFault>((
                                recs,
                                (k0 + 1) as nat,
                            ))) by {
                                assert(spec_update_many(m, rs0, ids, pops) == Ok::<_, StoreFault>((
                                    recs.drop_last(),
                                    k0,
                                )));
                                assert(recs.drop_last().push(d) =~= recs);
                            }
                        },
                        Err(_) => {
                            assert(false);
                        },
                    }
                } else {
                    let rs = rs0.push(d);
                    assert(spec_update_many(m, recs, ids, aops) == Ok::<_, StoreFault>((rs, k0)));
                    assert(rs.drop_last() =~= rs0);
                    assert(rs.last() == d);
                    assert(spec_update_many(m, rs, ids, pops) == Ok::<_, StoreFault>((recs, k0)))
                        by {
                        assert(spec_update_many(m, rs0, ids, pops) == Ok::<_, StoreFault>((
                            recs.drop_last(),
                            k0,
                        )));
                        assert(recs.drop_last().push(d) =~= recs);
                    }
                }
            },
            Err(_) => {
                assert(false);
            },
        }
    }
}

/// Readiness of a store for a connect round trip: in the parent's collection,
/// the record keyed by the parent key (if present) holds a relation array
/// free of every child key; in the child's collection, each record keyed by a
/// child key holds a relation array free of the parent key.
pub open spec fn connect_ready(s: StoreV, rel: RelationV, pv: ValueV, cvs: Seq<ValueV>) -> bool {
    &&& (store_has(s, rel.parent_model.db_name) ==> {
        let c = s[store_index(s, rel.parent_model.db_name)];
        forall|i: int|
            0 <= i < c.records.len() && seq_contains(
                seq![pv],
                doc_id(rel.parent_model, #[trigger] c.records[i]),
            ) ==> array_fresh(c.records[i], rel.parent_array_field, cvs)
    })
    &&& (store_has(s, rel.child_model.db_name) ==> {
        let c = s[store_index(s, rel.child_model.db_name)];
        forall|i: int|
            0 <= i < c.records.len() && seq_contains(
                cvs,
                doc_id(rel.child_model, #[trigger] c.records[i]),
            ) ==> array_fresh(c.records[i], rel.child_array_field, seq![pv])
    })
}

/// One side of the store-level round trip: updating one model's collection
/// with a fresh set-add, undone by the mirroring removal, restores the store.
proof fn lemma_store_side_roundtrip(s: StoreV, m: ModelV, ids: Seq<ValueV>, f: int, vs: Seq<ValueV>)
    requires
        m.wf(),
        store_wf(s),
        store_coll_wf(s, m),
        0 <= f < m.fields.len(),
        f != m.id_field,
        store_has(s, m.db_name) ==> {
            let c = s[store_index(s, m.db_name)];
            forall|i: int|
                0 <= i < c.records.len() && seq_contains(ids, doc_id(m, #[trigger] c.records[i]))
                    ==> array_fresh(c.records[i], f, vs)
        },
    ensures
        ({
            let aops = seq![UpdateOpV { field: f, action: UpdateActionV::AddToSet(vs) }];
            let pops = seq![UpdateOpV { field: f, action: UpdateActionV::PullAll(vs) }];
            match spec_update_coll_in_store(m, s, ids, aops) {
                Ok(s1) => spec_update_coll_in_store(m, s1, ids, pops) == Ok::<_, StoreFault>(s)
                    && s1.len() == s.len() && (forall|j: int|
                    0 <= j < s.len() ==> #[trigger] s1[j].name == s[j].name) && (forall|j: int|
                    0 <= j < s.len() && s[j].name != m.db_name ==> #[trigger] s1[j] == s[j]),
                Err(_) => false,
            }
        }),
{
    let aops = seq![UpdateOpV { field: f, action: UpdateActionV::AddToSet(vs) }];
    let pops = seq![UpdateOpV { field: f, action: UpdateActionV::PullAll(vs) }];
    if store_has(s, m.db_name) {
        let i = store_index(s, m.db_name);
        let c = s[i];
        assert(coll_wf(m, c));
        assert forall|q: int|
            0 <= q < c.records.len() && seq_contains(ids, doc_id(m, #[trigger] c.records[q]))
                implies f < c.records[q].len() && array_fresh(c.records[q], f, vs) by {
            assert(doc_wf(m, c.records[q]));
            assert(c.records[q].len() == m.fields.len());
        }
        lemma_update_many_roundtrip(m, c.records, ids, f, vs);
        match spec_update_many(m, c.records, ids, aops) {
            Ok((rs, k)) => {
                let c1 = CollectionV { name: c.name, next_id: c.next_id, records: rs };
                let s1 = s.update(i, c1);
                assert(spec_update_coll_in_store(m, s, ids, aops) == Ok::<_, StoreFault>(s1));
                assert(store_has(s1, m.db_name)) by {
                    assert(s1[i].name == m.db_name);
                }
                let i1 = store_index(s1, m.db_name);
                assert(i1 == i) by {
                    assert(s1[i1].name == m.db_name);
                    if i1 != i {
                        assert(s1[i1] == s[i1]);
                        assert(s[i1].name == s[i].name);
                    }
                }
                assert(spec_update_many(m, rs, ids, pops) == Ok::<_, StoreFault>((c.records, k)));
                assert(s1.update(i, CollectionV { name: c1.name, next_id: c1.next_id, records: c.records })
                    =~= s);
                assert(spec_update_coll_in_store(m, s1, ids, pops) == Ok::<_, StoreFault>(s));
            },
            Err(_) => {
                assert(false);
            },
        }
    } else {
        assert(spec_update_coll_in_store(m, s, ids, aops) == Ok::<_, StoreFault>(s));
    }
}

/// The relation round-trip law: connecting child records to a parent and then
/// immediately disconnecting the same pair restores both endpoint relation
/// arrays — the whole store — to their pre-connect state, assuming no
/// interleaving writer, provided the endpoints live in distinct collections,
/// the connected keys were not already present on either side, and both
/// relation arrays are present.
pub proof fn law_m2m_connect_disconnect_roundtrip(
    s: StoreV,
    rel: RelationV,
    pv: ValueV,
    cvs: Seq<ValueV>,
)
    requires
        rel.wf(),
        store_wf(s),
        store_coll_wf(s, rel.parent_model),
        store_coll_wf(s, rel.child_model),
        rel.parent_model.db_name != rel.child_model.db_name,
        connect_ready(s, rel, pv, cvs),
    ensures
        match spec_m2m_connect(s, rel, pv, cvs) {
            Ok(s2) => spec_m2m_disconnect(s2, rel, pv, cvs) == Ok::<_, StoreFault>(s),
            Err(_) => false,
        },
{
    let pm = rel.parent_model;
    let cm = rel.child_model;
    let pf = rel.parent_array_field;
    let cf = rel.child_array_field;
    let pops = spec_disconnect_parent_ops(rel, cvs);
    let cops = spec_disconnect_child_ops(rel, pv);

    // Parent side: the connect's set-add is undone by the disconnect's pull.
    lemma_store_side_roundtrip(s, pm, seq![pv], pf, cvs);
    match spec_update_coll_in_store(pm, s, seq![pv], spec_connect_parent_ops(rel, cvs)) {
        Ok(s1) => {
            assert(spec_update_coll_in_store(pm, s1, seq![pv], pops) == Ok::<_, StoreFault>(s));
            assert(store_wf(s1)) by {
                assert forall|i: int, j: int| 0 <= i < j < s1.len() implies s1[i].name
                    != s1[j].name by {
                    assert(s1[i].name == s[i].name && s1[j].name == s[j].name);
                }
            }
            // The parent-side write left the child's collection untouched, so
            // the child side's freshness and well-formedness carry over.
            assert(store_coll_wf(s1, cm) && (store_has(s1, cm.db_name) ==> {
                let c = s1[store_index(s1, cm.db_name)];
                forall|i: int|
                    0 <= i < c.records.len() && seq_contains(
                        cvs,
                        doc_id(cm, #[trigger] c.records[i]),
                    ) ==> array_fresh(c.records[i], cf, seq![pv])
            })) by {
                if store_has(s1, cm.db_name) {
                    let ci1 = store_index(s1, cm.db_name);
                    assert(store_has(s, cm.db_name)) by {
                        assert(s[ci1].name == cm.db_name);
                    }
                    let ci = store_index(s, cm.db_name);
                    assert(ci == ci1) by {
                        assert(s1[ci].name == cm.db_name);
                        if ci != ci1 {
                            assert(s[ci].name == s[ci1].name);
                        }
                    }
                    assert(s1[ci1] == s[ci]);
                }
            }
            lemma_store_side_roundtrip(s1, cm, cvs, cf, seq![pv]);
            match spec_update_coll_in_store(cm, s1, cvs, spec_connect_child_ops(rel, pv)) {
                Ok(s2) => {
                    assert(spec_m2m_connect(s, rel, pv, cvs) == Ok::<_, StoreFault>(s2));
                    assert(spec_update_coll_in_store(cm, s2, cvs, cops) == Ok::<_, StoreFault>(
                        s1,
                    ));
                    // Undo the parent side on s2: its parent collection is
                    // still the one the connect produced.
                    lemma_transport_pull(s, s1, s2, pm, cm, seq![pv], pops);
                    match spec_update_coll_in_store(pm, s2, seq![pv], pops) {
                        Ok(s3) => {
                            // Undo the child side on s3: its child collection
                            // is still the one the connect produced.
                            lemma_transport_pull_child(s, s1, s2, s3, pm, cm, cvs, cops);
                        },
                        Err(_) => {
                            assert(false);
                        },
                    }
                },
                Err(_) => {
                    assert(false);
                },
            }
        },
        Err(_) => {
            assert(false);
        },
    }
}

/// A pull that takes the touched store back applies equally on a store whose
/// other collections changed but whose touched collection did not.
proof fn lemma_transport_pull(
    s: StoreV,
    s1: StoreV,
    s2: StoreV,
    pm: ModelV,
    cm: ModelV,
    ids: Seq<ValueV>,
    pops: Seq<UpdateOpV>,
)
    requires
        store_wf(s),
        pm.db_name != cm.db_name,
        s1.len() == s.len(),
        s2.len() == s1.len(),
        forall|j: int| 0 <= j < s.len() ==> #[trigger] s1[j].name == s[j].name,
        forall|j: int| 0 <= j < s1.len() ==> #[trigger] s2[j].name == s1[j].name,
        forall|j: int|
            0 <= j < s1.len() && s1[j].name != cm.db_name ==> #[trigger] s2[j] == s1[j],
        spec_update_coll_in_store(pm, s1, ids, pops) is Ok,
    ensures
        ({
            let s_back = spec_update_coll_in_store(pm, s1, ids, pops)->Ok_0;
            match spec_update_coll_in_store(pm, s2, ids, pops) {
                Ok(s3) => {
                    &&& s3.len() == s2.len()
                    &&& forall|j: int| 0 <= j < s2.len() ==> #[trigger] s3[j].name == s2[j].name
                    &&& forall|j: int|
                        0 <= j < s2.len() && s2[j].name != pm.db_name ==> #[trigger] s3[j] == s2[j]
                    &&& forall|j: int|
                        0 <= j < s2.len() && s2[j].name == pm.db_name ==> #[trigger] s3[j]
                            == (CollectionV {
                            name: s2[j].name,
                            next_id: s2[j].next_id,
                            records: s_back[j].records,
                        })
                    &&& forall|j: int|
                        0 <= j < s2.len() && s2[j].name == pm.db_name
                            ==> #[trigger] s_back[j].name == s2[j].name && s_back[j].next_id
                            == s2[j].next_id
                },
                Err(_) => false,
            }
        }),
{
    if store_has(s1, pm.db_name) {
        let pi1 = store_index(s1, pm.db_name);
        assert(s2[pi1].name == pm.db_name);
        assert(store_has(s2, pm.db_name));
        let pi2 = store_index(s2, pm.db_name);
        assert(pi1 == pi2) by {
            assert(s2[pi2].name == pm.db_name && s2[pi1].name == pm.db_name);
            if pi1 != pi2 {
                assert(s[pi1].name == s[pi2].name);
            }
        }
        assert(s2[pi1] == s1[pi1]);
        let s_back = spec_update_coll_in_store(pm, s1, ids, pops)->Ok_0;
        match spec_update_many(pm, s1[pi1].records, ids, pops) {
            Ok((rs, _)) => {
                assert(s_back == s1.update(pi1, CollectionV {
                    name: s1[pi1].name,
                    next_id: s1[pi1].next_id,
                    records: rs,
                }));
                let s3 = s2.update(pi2, CollectionV {
                    name: s2[pi2].name,
                    next_id: s2[pi2].next_id,
                    records: rs,
                });
                assert(spec_update_coll_in_store(pm, s2, ids, pops) == Ok::<_, StoreFault>(s3));
                assert forall|j: int|
                    0 <= j < s2.len() && s2[j].name == pm.db_name implies #[trigger] s3[j]
                    == (CollectionV {
                    name: s2[j].name,
                    next_id: s2[j].next_id,
                    records: s_back[j].records,
                }) by {
                    assert(j == pi1) by {
                        if j != pi1 {
                            assert(s[j].name == s[pi1].name);
                        }
                    }
                }
                assert forall|j: int|
                    0 <= j < s2.len() && s2[j].name == pm.db_name implies #[trigger] s_back[j].name
                    == s2[j].name && s_back[j].next_id == s2[j].next_id by {
                    assert(j == pi1) by {
                        if j != pi1 {
                            assert(s[j].name == s[pi1].name);
                        }
                    }
                }
            },
            Err(_) => {
                assert(false);
            },
        }
    } else {
        assert(!store_has(s2, pm.db_name)) by {
            if store_has(s2, pm.db_name) {
                let x = store_index(s2, pm.db_name);
                assert(s1[x].name == pm.db_name);
            }
        }
        assert(spec_update_coll_in_store(pm, s2, ids, pops) == Ok::<_, StoreFault>(s2));
        let s_back = spec_update_coll_in_store(pm, s1, ids, pops)->Ok_0;
        assert(s_back == s1);
    }
}

/// The final pull on the child side lands back on the original store.
proof fn lemma_transport_pull_child(
    s: StoreV,
    s1: StoreV,
    s2: StoreV,
    s3: StoreV,
    pm: ModelV,
    cm: ModelV,
    cvs: Seq<ValueV>,
    cops: Seq<UpdateOpV>,
)
    requires
        store_wf(s),
        pm.db_name != cm.db_name,
        s1.len() == s.len(),
        s2.len() == s1.len(),
        s3.len() == s2.len(),
        forall|j: int| 0 <= j < s.len() ==> #[trigger] s1[j].name == s[j].name,
        forall|j: int| 0 <= j < s1.len() ==> #[trigger] s2[j].name == s1[j].name,
        forall|j: int| 0 <= j < s2.len() ==> #[trigger] s3[j].name == s2[j].name,
        // The connect touched only the parent's collection on the way to s1
        // and only the child's on the way to s2; the parent pull landed s3.
        forall|j: int|
            0 <= j < s.len() && s[j].name != pm.db_name ==> #[trigger] s1[j] == s[j],
        forall|j: int|
            0 <= j < s1.len() && s1[j].name != cm.db_name ==> #[trigger] s2[j] == s1[j],
        forall|j: int|
            0 <= j < s2.len() && s2[j].name != pm.db_name ==> #[trigger] s3[j] == s2[j],
        forall|j: int|
            0 <= j < s2.len() && s2[j].name == pm.db_name ==> #[trigger] s3[j] == (CollectionV {
                name: s2[j].name,
                next_id: s2[j].next_id,
                records: s[j].records,
            }) && s[j].name == s2[j].name && s[j].next_id == s2[j].next_id,
        // Pulling the child side of s2 lands back on s1.
        spec_update_coll_in_store(cm, s2, cvs, cops) == Ok::<_, StoreFault>(s1),
    ensures
        spec_update_coll_in_store(cm, s3, cvs, cops) == Ok::<_, StoreFault>(s),
{
    if store_has(s2, cm.db_name) {
        let ci2 = store_index(s2, cm.db_name);
        assert(s3[ci2].name == cm.db_name);
        assert(store_has(s3, cm.db_name));
        let ci3 = store_index(s3, cm.db_name);
        assert(ci2 == ci3) by {
            assert(s3[ci3].name == cm.db_name && s3[ci2].name == cm.db_name);
            if ci2 != ci3 {
                assert(s[ci2].name == s[ci3].name);
            }
        }
        assert(s2[ci2].name != pm.db_name);
        assert(s3[ci2] == s2[ci2]);
        match spec_update_many(cm, s2[ci2].records, cvs, cops) {
            Ok((rs, _)) => {
                assert(s1 == s2.update(ci2, CollectionV {
                    name: s2[ci2].name,
                    next_id: s2[ci2].next_id,
                    records: rs,
                }));
                let s4 = s3.update(ci3, CollectionV {
                    name: s3[ci3].name,
                    next_id: s3[ci3].next_id,
                    records: rs,
                });
                assert(spec_update_coll_in_store(cm, s3, cvs, cops) == Ok::<_, StoreFault>(s4));
                assert(s4 =~= s) by {
                    assert forall|j: int| 0 <= j < s.len() implies s4[j] == s[j] by {
                        if j == ci3 {
                            assert(s1[j] == s4[j]);
                            assert(s1[j] == s[j]);
                        } else if s2[j].name == pm.db_name {
                            assert(s4[j] == s3[j]);
                            assert(s3[j].records == s[j].records);
                            assert(s3[j].name == s[j].name && s3[j].next_id == s[j].next_id);
                            assert(s3[j] =~= s[j]);
                        } else {
                            assert(s4[j] == s3[j] && s3[j] == s2[j] && s2[j] == s1[j] && s1[j]
                                == s[j]);
                        }
                    }
                }
            },
            Err(_) => {
                assert(false);
            },
        }
    } else {
        assert(s1 == s2);
        assert(!store_has(s3, cm.db_name)) by {
            if store_has(s3, cm.db_name) {
                let x = store_index(s3, cm.db_name);
                assert(s2[x].name == cm.db_name);
            }
        }
        assert(spec_update_coll_in_store(cm, s3, cvs, cops) == Ok::<_, StoreFault>(s3));
        assert(s3 =~= s) by {
            assert forall|j: int| 0 <= j < s.len() implies s3[j] == s[j] by {
                if s2[j].name == pm.db_name {
                    assert(s3[j].records == s[j].records);
                    assert(s3[j].name == s[j].name && s3[j].next_id == s[j].next_id);
                    assert(s3[j] =~= s[j]);
                } else {
                    assert(s3[j] == s2[j] && s2[j] == s1[j] && s1[j] == s[j]);
                }
            }
        }
    }
}

} // verus!
