use connector_core::args::{SelectionResult, WriteArgs, WriteExpression};
use connector_core::error::{BackendFault, Error};
use connector_core::filter::{Filter, RecordFilter};
use connector_core::model::{FieldArity, FieldDef, FieldType, ModelDef, RelationField};
use connector_core::raw::{execute_raw, query_raw, strip_volatile_fields, MongoCommand, MongoOperation, RawDocument};
use connector_core::store::{collection_for, Collection, Document, Store};
use connector_core::value::{DocValue, Value};
use connector_core::write::{
    create_record, create_records, delete_records, m2m_connect, m2m_disconnect, update_records,
    UpdateType,
};

fn my_table() -> ModelDef {
    ModelDef {
        db_name: "myTable".to_string(),
        fields: vec![
            FieldDef {
                db_name: "id".to_string(),
                field_type: FieldType::Int,
                arity: FieldArity::Required,
            },
            FieldDef {
                db_name: "name".to_string(),
                field_type: FieldType::Str,
                arity: FieldArity::Required,
            },
        ],
        id_field: 0,
    }
}

fn args_name(name: &str) -> WriteArgs {
    WriteArgs {
        entries: vec![(
            "name".to_string(),
            WriteExpression::Value(Value::Str(name.to_string())),
        )],
    }
}

fn args_id_name(id: i64, name: &str) -> WriteArgs {
    WriteArgs {
        entries: vec![
            ("id".to_string(), WriteExpression::Value(Value::Int(id))),
            (
                "name".to_string(),
                WriteExpression::Value(Value::Str(name.to_string())),
            ),
        ],
    }
}

fn fresh_coll(model: &ModelDef) -> Collection {
    let mut st = Store::new();
    let i = collection_for(&mut st, model);
    st.collections.remove(i)
}

fn sel_id(sel: &SelectionResult) -> i64 {
    match &sel.pairs[0].1 {
        Value::Int(k) => *k,
        other => panic!("expected integer key, got {:?}", other),
    }
}

#[test]
fn create_record_generates_monotonic_integer_ids() {
    // Scenario: model "myTable", integer primary key, string field; two
    // creates with {name: "a"} yield ids 1 then 2.
    let model = my_table();
    let mut coll = fresh_coll(&model);
    let first = create_record(&mut coll, &model, &args_name("a")).unwrap();
    assert_eq!(first.pairs[0].0, "id");
    assert_eq!(sel_id(&first), 1);
    let second = create_record(&mut coll, &model, &args_name("a")).unwrap();
    assert_eq!(sel_id(&second), 2);
    assert_eq!(coll.records.len(), 2);
}

#[test]
fn create_record_writes_exactly_the_present_fields() {
    let model = my_table();
    let mut coll = fresh_coll(&model);
    // Only "name" is present: the stored document carries the generated id
    // and "name", nothing else, and no implicit nulls appear.
    create_record(&mut coll, &model, &args_name("a")).unwrap();
    let doc = &coll.records[0];
    assert!(matches!(doc.fields[0], Some(DocValue::Scalar(Value::Int(1)))));
    assert!(matches!(&doc.fields[1], Some(DocValue::Scalar(Value::Str(s))) if s == "a"));

    // An empty argument set stores a document with only the generated id.
    create_record(&mut coll, &model, &WriteArgs { entries: vec![] }).unwrap();
    let doc = &coll.records[1];
    assert!(matches!(doc.fields[0], Some(DocValue::Scalar(Value::Int(2)))));
    assert!(doc.fields[1].is_none());
}

#[test]
fn create_record_rejects_a_value_that_does_not_fit() {
    let model = my_table();
    let mut coll = fresh_coll(&model);
    let bad = WriteArgs {
        entries: vec![("name".to_string(), WriteExpression::Value(Value::Int(3)))],
    };
    match create_record(&mut coll, &model, &bad) {
        Err(Error::FieldConversion(f)) => assert_eq!(f, "name"),
        other => panic!("expected a field conversion error, got {:?}", other),
    }
    assert_eq!(coll.records.len(), 0);
}

#[test]
fn create_record_reports_a_duplicate_key_as_conflict() {
    let model = my_table();
    let mut coll = fresh_coll(&model);
    create_record(&mut coll, &model, &args_id_name(7, "a")).unwrap();
    match create_record(&mut coll, &model, &args_id_name(7, "b")) {
        Err(Error::Conflict) => {}
        other => panic!("expected a conflict, got {:?}", other),
    }
    assert_eq!(coll.records.len(), 1);
}

#[test]
fn create_records_skips_exactly_the_duplicate_keys() {
    let model = my_table();
    let mut coll = fresh_coll(&model);
    create_record(&mut coll, &model, &args_id_name(1, "a")).unwrap();
    create_record(&mut coll, &model, &args_id_name(2, "b")).unwrap();
    // Four documents, two colliding: with duplicate skipping the call
    // reports 4 - 2.
    let batch = vec![
        args_id_name(1, "x"),
        args_id_name(2, "y"),
        args_id_name(10, "z"),
        args_id_name(11, "w"),
    ];
    let n = create_records(&mut coll, &model, &batch, true).unwrap();
    assert_eq!(n, 2);
    assert_eq!(coll.records.len(), 4);
}

#[test]
fn create_records_without_skipping_fails_on_the_first_duplicate() {
    let model = my_table();
    let mut coll = fresh_coll(&model);
    create_record(&mut coll, &model, &args_id_name(1, "a")).unwrap();
    let batch = vec![args_id_name(1, "x"), args_id_name(10, "z")];
    match create_records(&mut coll, &model, &batch, false) {
        Err(Error::Conflict) => {}
        other => panic!("expected a conflict, got {:?}", other),
    }
    // Ordered insert stopped at the first fault: nothing was appended.
    assert_eq!(coll.records.len(), 1);
}

#[test]
fn create_records_with_skipping_fails_on_a_non_duplicate_fault() {
    let model = my_table();
    let mut coll = fresh_coll(&model);
    // An explicit key at the very top of the integer range exhausts the
    // generator: a fault that is not a duplicate, so skipping must not
    // absorb it.
    let batch = vec![args_id_name(i64::MAX, "x"), args_id_name(5, "y")];
    match create_records(&mut coll, &model, &batch, true) {
        Err(Error::Backend(BackendFault::IdExhausted)) => {}
        other => panic!("expected a backend fault, got {:?}", other),
    }
}

#[test]
fn update_records_returns_empty_on_zero_matches_and_issues_no_write() {
    let model = my_table();
    let mut coll = fresh_coll(&model);
    create_record(&mut coll, &model, &args_id_name(1, "a")).unwrap();
    let before = coll.records.len();
    let rf = RecordFilter::from_filter(Filter::Equals(
        "name".to_string(),
        Value::Str("missing".to_string()),
    ));
    let args = args_name("b");
    let sels = update_records(&mut coll, &model, &rf, &args, UpdateType::Many).unwrap();
    assert_eq!(sels.len(), 0);
    assert_eq!(coll.records.len(), before);
    assert!(matches!(&coll.records[0].fields[1], Some(DocValue::Scalar(Value::Str(s))) if s == "a"));
}

#[test]
fn update_records_with_no_applicable_update_still_reports_matched_ids() {
    let model = my_table();
    let mut coll = fresh_coll(&model);
    create_record(&mut coll, &model, &args_id_name(1, "a")).unwrap();
    create_record(&mut coll, &model, &args_id_name(2, "a")).unwrap();
    let rf = RecordFilter::from_filter(Filter::Equals(
        "name".to_string(),
        Value::Str("a".to_string()),
    ));
    // The argument set resolves to no native update at all: the write is
    // skipped, yet the matched keys are still reported — distinguishing this
    // from the zero-matched path, which returns empty.
    let empty = WriteArgs { entries: vec![] };
    let sels = update_records(&mut coll, &model, &rf, &empty, UpdateType::Many).unwrap();
    let ids: Vec<i64> = sels.iter().map(sel_id).collect();
    assert_eq!(ids, vec![1, 2]);
}

#[test]
fn update_records_applies_set_and_atomic_increment() {
    let model = ModelDef {
        db_name: "counters".to_string(),
        fields: vec![
            FieldDef {
                db_name: "id".to_string(),
                field_type: FieldType::Int,
                arity: FieldArity::Required,
            },
            FieldDef {
                db_name: "count".to_string(),
                field_type: FieldType::Int,
                arity: FieldArity::Required,
            },
        ],
        id_field: 0,
    };
    let mut coll = fresh_coll(&model);
    let args0 = WriteArgs {
        entries: vec![
            ("id".to_string(), WriteExpression::Value(Value::Int(1))),
            ("count".to_string(), WriteExpression::Value(Value::Int(40))),
        ],
    };
    create_record(&mut coll, &model, &args0).unwrap();
    let rf = RecordFilter::from_selectors(vec![SelectionResult {
        pairs: vec![("id".to_string(), Value::Int(1))],
    }]);
    let inc = WriteArgs {
        entries: vec![("count".to_string(), WriteExpression::Add(2))],
    };
    let sels = update_records(&mut coll, &model, &rf, &inc, UpdateType::Many).unwrap();
    assert_eq!(sels.len(), 1);
    assert!(matches!(coll.records[0].fields[1], Some(DocValue::Scalar(Value::Int(42)))));
}

#[test]
fn update_records_reports_overflow_as_backend_fault() {
    let model = ModelDef {
        db_name: "counters".to_string(),
        fields: vec![
            FieldDef {
                db_name: "id".to_string(),
                field_type: FieldType::Int,
                arity: FieldArity::Required,
            },
            FieldDef {
                db_name: "count".to_string(),
                field_type: FieldType::Int,
                arity: FieldArity::Required,
            },
        ],
        id_field: 0,
    };
    let mut coll = fresh_coll(&model);
    let args0 = WriteArgs {
        entries: vec![
            ("id".to_string(), WriteExpression::Value(Value::Int(1))),
            (
                "count".to_string(),
                WriteExpression::Value(Value::Int(i64::MAX)),
            ),
        ],
    };
    create_record(&mut coll, &model, &args0).unwrap();
    let rf = RecordFilter::from_selectors(vec![SelectionResult {
        pairs: vec![("id".to_string(), Value::Int(1))],
    }]);
    let inc = WriteArgs {
        entries: vec![("count".to_string(), WriteExpression::Add(1))],
    };
    match update_records(&mut coll, &model, &rf, &inc, UpdateType::Many) {
        Err(Error::Backend(BackendFault::Overflow)) => {}
        other => panic!("expected an overflow fault, got {:?}", other),
    }
}

#[test]
fn delete_records_removes_matches_then_reports_zero() {
    let model = my_table();
    let mut coll = fresh_coll(&model);
    create_record(&mut coll, &model, &args_id_name(1, "x")).unwrap();
    create_record(&mut coll, &model, &args_id_name(2, "x")).unwrap();
    create_record(&mut coll, &model, &args_id_name(3, "other")).unwrap();
    let rf = RecordFilter::from_filter(Filter::Equals(
        "name".to_string(),
        Value::Str("x".to_string()),
    ));
    let deleted = delete_records(&mut coll, &model, &rf);
    assert_eq!(deleted, 2);
    assert_eq!(coll.records.len(), 1);
    assert!(matches!(coll.records[0].fields[0], Some(DocValue::Scalar(Value::Int(3)))));
    // Idempotent from the second call onward.
    let again = delete_records(&mut coll, &model, &rf);
    assert_eq!(again, 0);
    assert_eq!(coll.records.len(), 1);
}

fn relation_models() -> (ModelDef, ModelDef, RelationField) {
    let parent = ModelDef {
        db_name: "artists".to_string(),
        fields: vec![
            FieldDef {
                db_name: "id".to_string(),
                field_type: FieldType::Int,
                arity: FieldArity::Required,
            },
            FieldDef {
                db_name: "album_ids".to_string(),
                field_type: FieldType::Int,
                arity: FieldArity::List,
            },
        ],
        id_field: 0,
    };
    let child = ModelDef {
        db_name: "albums".to_string(),
        fields: vec![
            FieldDef {
                db_name: "id".to_string(),
                field_type: FieldType::Int,
                arity: FieldArity::Required,
            },
            FieldDef {
                db_name: "artist_ids".to_string(),
                field_type: FieldType::Int,
                arity: FieldArity::List,
            },
        ],
        id_field: 0,
    };
    let rel = RelationField {
        parent_model: parent.clone(),
        child_model: child.clone(),
        parent_array_field: 1,
        child_array_field: 1,
    };
    (parent, child, rel)
}

fn array_of(doc: &Document, field: usize) -> Vec<i64> {
    match &doc.fields[field] {
        Some(DocValue::Array(vs)) => vs
            .iter()
            .map(|v| match v {
                Value::Int(k) => *k,
                other => panic!("expected integer member, got {:?}", other),
            })
            .collect(),
        other => panic!("expected an array, got {:?}", other),
    }
}

#[test]
fn m2m_connect_adds_each_key_once_and_symmetrically() {
    let (parent, child, rel) = relation_models();
    let mut st = Store::new();
    {
        let pi = collection_for(&mut st, &parent);
        let pargs = WriteArgs {
            entries: vec![
                ("id".to_string(), WriteExpression::Value(Value::Int(1))),
                ("album_ids".to_string(), WriteExpression::ValueList(vec![Value::Int(9)])),
            ],
        };
        create_record(&mut st.collections[pi], &parent, &pargs).unwrap();
    }
    {
        let ci = collection_for(&mut st, &child);
        for id in [9i64, 20, 21] {
            let cargs = WriteArgs {
                entries: vec![
                    ("id".to_string(), WriteExpression::Value(Value::Int(id))),
                    ("artist_ids".to_string(), WriteExpression::ValueList(vec![])),
                ],
            };
            create_record(&mut st.collections[ci], &child, &cargs).unwrap();
        }
    }
    let parent_id = SelectionResult {
        pairs: vec![("id".to_string(), Value::Int(1))],
    };
    // 9 is already connected: set semantics must not add it twice.
    let child_ids = vec![
        SelectionResult { pairs: vec![("id".to_string(), Value::Int(9))] },
        SelectionResult { pairs: vec![("id".to_string(), Value::Int(20))] },
        SelectionResult { pairs: vec![("id".to_string(), Value::Int(21))] },
    ];
    m2m_connect(&mut st, &rel, &parent_id, &child_ids).unwrap();
    assert_eq!(array_of(&st.collections[0].records[0], 1), vec![9, 20, 21]);
    assert_eq!(array_of(&st.collections[1].records[0], 1), vec![1]);
    assert_eq!(array_of(&st.collections[1].records[1], 1), vec![1]);
    assert_eq!(array_of(&st.collections[1].records[2], 1), vec![1]);
}

#[test]
fn m2m_connect_then_disconnect_restores_both_sides() {
    let (parent, child, rel) = relation_models();
    let mut st = Store::new();
    {
        let pi = collection_for(&mut st, &parent);
        let pargs = WriteArgs {
            entries: vec![
                ("id".to_string(), WriteExpression::Value(Value::Int(1))),
                ("album_ids".to_string(), WriteExpression::ValueList(vec![Value::Int(5)])),
            ],
        };
        create_record(&mut st.collections[pi], &parent, &pargs).unwrap();
    }
    {
        let ci = collection_for(&mut st, &child);
        for (id, linked) in [(20i64, vec![]), (21, vec![Value::Int(3)])] {
            let cargs = WriteArgs {
                entries: vec![
                    ("id".to_string(), WriteExpression::Value(Value::Int(id))),
                    ("artist_ids".to_string(), WriteExpression::ValueList(linked)),
                ],
            };
            create_record(&mut st.collections[ci], &child, &cargs).unwrap();
        }
    }
    let parent_id = SelectionResult {
        pairs: vec![("id".to_string(), Value::Int(1))],
    };
    let child_ids = vec![
        SelectionResult { pairs: vec![("id".to_string(), Value::Int(20))] },
        SelectionResult { pairs: vec![("id".to_string(), Value::Int(21))] },
    ];
    m2m_connect(&mut st, &rel, &parent_id, &child_ids).unwrap();
    assert_eq!(array_of(&st.collections[0].records[0], 1), vec![5, 20, 21]);
    assert_eq!(array_of(&st.collections[1].records[0], 1), vec![1]);
    m2m_disconnect(&mut st, &rel, &parent_id, &child_ids).unwrap();
    // Round trip: both endpoint relation arrays are back to their
    // pre-connect state.
    assert_eq!(array_of(&st.collections[0].records[0], 1), vec![5]);
    assert_eq!(array_of(&st.collections[1].records[0], 1), Vec::<i64>::new());
    assert_eq!(array_of(&st.collections[1].records[1], 1), vec![3]);
}

#[test]
fn execute_raw_is_unsupported_on_the_document_backend() {
    let inputs = RawDocument { pairs: vec![] };
    match execute_raw(&inputs) {
        Err(Error::Unsupported(op)) => assert_eq!(op, "execute_raw"),
        other => panic!("expected unsupported, got {:?}", other),
    }
}

#[test]
fn query_raw_recognizes_named_operations_and_falls_back() {
    let model = my_table();
    let inputs = RawDocument {
        pairs: vec![("filter".to_string(), DocValue::Scalar(Value::Int(1)))],
    };
    let qt = "findRaw".to_string();
    match query_raw(Some(&model), &inputs, Some(&qt)) {
        MongoCommand::Handled { collection, operation } => {
            assert_eq!(collection, "myTable");
            assert!(matches!(operation, MongoOperation::Find(_)));
        }
        other => panic!("expected a handled find, got {:?}", other),
    }
    let qt = "aggregateRaw".to_string();
    assert!(matches!(
        query_raw(Some(&model), &inputs, Some(&qt)),
        MongoCommand::Handled { operation: MongoOperation::Aggregate(_), .. }
    ));
    // Anything not matching a recognized named form runs as a raw command.
    let qt = "somethingElse".to_string();
    assert!(matches!(query_raw(Some(&model), &inputs, Some(&qt)), MongoCommand::Raw(_)));
    assert!(matches!(query_raw(None, &inputs, None), MongoCommand::Raw(_)));
}

#[test]
fn strip_volatile_fields_removes_exactly_the_volatile_keys() {
    let response = RawDocument {
        pairs: vec![
            ("ok".to_string(), DocValue::Scalar(Value::Int(1))),
            ("operationTime".to_string(), DocValue::Scalar(Value::Int(7))),
            ("$clusterTime".to_string(), DocValue::Scalar(Value::Int(8))),
            ("value".to_string(), DocValue::Scalar(Value::Str("x".to_string()))),
            ("opTime".to_string(), DocValue::Scalar(Value::Int(9))),
            ("electionId".to_string(), DocValue::Scalar(Value::Int(10))),
        ],
    };
    let stripped = strip_volatile_fields(&response);
    let keys: Vec<&str> = stripped.pairs.iter().map(|p| p.0.as_str()).collect();
    assert_eq!(keys, vec!["ok", "value"]);
}


#[test]
fn filter_trees_evaluate_equality_membership_and_boolean_operators() {
    let model = ModelDef {
        db_name: "things".to_string(),
        fields: vec![
            FieldDef {
                db_name: "id".to_string(),
                field_type: FieldType::Int,
                arity: FieldArity::Required,
            },
            FieldDef {
                db_name: "name".to_string(),
                field_type: FieldType::Str,
                arity: FieldArity::Optional,
            },
            FieldDef {
                db_name: "tags".to_string(),
                field_type: FieldType::Int,
                arity: FieldArity::List,
            },
        ],
        id_field: 0,
    };
    let mut coll = fresh_coll(&model);
    let a = WriteArgs {
        entries: vec![
            ("id".to_string(), WriteExpression::Value(Value::Int(1))),
            ("name".to_string(), WriteExpression::Value(Value::Str("a".to_string()))),
            (
                "tags".to_string(),
                WriteExpression::ValueList(vec![Value::Int(7), Value::Int(8)]),
            ),
        ],
    };
    let b = WriteArgs {
        entries: vec![("id".to_string(), WriteExpression::Value(Value::Int(2)))],
    };
    create_record(&mut coll, &model, &a).unwrap();
    create_record(&mut coll, &model, &b).unwrap();

    // Array membership: {tags: 7} matches the record whose array contains 7.
    let rf = RecordFilter::from_filter(Filter::Equals("tags".to_string(), Value::Int(7)));
    assert_eq!(delete_records(&mut coll.clone(), &model, &rf), 1);

    // A null comparand matches the record where the field is absent.
    let rf = RecordFilter::from_filter(Filter::Equals("name".to_string(), Value::Null));
    assert_eq!(delete_records(&mut coll.clone(), &model, &rf), 1);

    // Boolean operators combine.
    let rf = RecordFilter::from_filter(Filter::Or(
        Box::new(Filter::Equals("id".to_string(), Value::Int(1))),
        Box::new(Filter::Not(Box::new(Filter::All))),
    ));
    assert_eq!(delete_records(&mut coll.clone(), &model, &rf), 1);
    let rf = RecordFilter::from_filter(Filter::And(
        Box::new(Filter::All),
        Box::new(Filter::Equals("id".to_string(), Value::Int(2))),
    ));
    assert_eq!(delete_records(&mut coll.clone(), &model, &rf), 1);
}

#[test]
fn update_many_distinguishes_vanished_targets_from_noop_updates() {
    let model = my_table();
    let mut coll = fresh_coll(&model);
    create_record(&mut coll, &model, &args_id_name(1, "a")).unwrap();
    // Explicit selectors name a record that no longer exists: the write
    // matches nothing, and bulk mode reports that as an empty result.
    let vanished = RecordFilter::from_selectors(vec![SelectionResult {
        pairs: vec![("id".to_string(), Value::Int(99))],
    }]);
    let args = args_name("b");
    let sels = update_records(&mut coll, &model, &vanished, &args, UpdateType::Many).unwrap();
    assert_eq!(sels.len(), 0);
    // Outside bulk mode the resolved keys are reported regardless.
    let sels = update_records(&mut coll, &model, &vanished, &args, UpdateType::One).unwrap();
    assert_eq!(sels.len(), 1);
    assert_eq!(sel_id(&sels[0]), 99);
}

#[test]
fn update_records_applies_subtract_push_and_list_replacement() {
    let model = ModelDef {
        db_name: "things".to_string(),
        fields: vec![
            FieldDef {
                db_name: "id".to_string(),
                field_type: FieldType::Int,
                arity: FieldArity::Required,
            },
            FieldDef {
                db_name: "count".to_string(),
                field_type: FieldType::Int,
                arity: FieldArity::Required,
            },
            FieldDef {
                db_name: "tags".to_string(),
                field_type: FieldType::Int,
                arity: FieldArity::List,
            },
        ],
        id_field: 0,
    };
    let mut coll = fresh_coll(&model);
    let a = WriteArgs {
        entries: vec![
            ("id".to_string(), WriteExpression::Value(Value::Int(1))),
            ("count".to_string(), WriteExpression::Value(Value::Int(10))),
            ("tags".to_string(), WriteExpression::ValueList(vec![Value::Int(7)])),
        ],
    };
    create_record(&mut coll, &model, &a).unwrap();
    let rf = RecordFilter::from_selectors(vec![SelectionResult {
        pairs: vec![("id".to_string(), Value::Int(1))],
    }]);
    let change = WriteArgs {
        entries: vec![
            ("count".to_string(), WriteExpression::Subtract(4)),
            ("tags".to_string(), WriteExpression::Push(Value::Int(8))),
        ],
    };
    update_records(&mut coll, &model, &rf, &change, UpdateType::Many).unwrap();
    assert!(matches!(coll.records[0].fields[1], Some(DocValue::Scalar(Value::Int(6)))));
    assert_eq!(array_of(&coll.records[0], 2), vec![7, 8]);

    let replace = WriteArgs {
        entries: vec![(
            "tags".to_string(),
            WriteExpression::ValueList(vec![Value::Int(1), Value::Int(2)]),
        )],
    };
    update_records(&mut coll, &model, &rf, &replace, UpdateType::Many).unwrap();
    assert_eq!(array_of(&coll.records[0], 2), vec![1, 2]);
}

#[test]
fn delete_records_by_explicit_selectors() {
    let model = my_table();
    let mut coll = fresh_coll(&model);
    create_record(&mut coll, &model, &args_id_name(1, "a")).unwrap();
    create_record(&mut coll, &model, &args_id_name(2, "b")).unwrap();
    let rf = RecordFilter::from_selectors(vec![
        SelectionResult { pairs: vec![("id".to_string(), Value::Int(2))] },
        SelectionResult { pairs: vec![("id".to_string(), Value::Int(5))] },
    ]);
    // One of the two named keys exists: exactly one record goes.
    assert_eq!(delete_records(&mut coll, &model, &rf), 1);
    assert_eq!(coll.records.len(), 1);
    assert_eq!(delete_records(&mut coll, &model, &rf), 0);
}
