//! Record Filters: either an explicit list of Selection Results, or a
//! boolean/comparison filter tree evaluated against the documents.
use vstd::prelude::*;
use crate::args::{SelectionResult, SelectionV};
use crate::model::ModelDef;
use crate::store::{seq_contains, slot_view, DocV, Document};
use crate::value::{DocValue, DocValueV, Value, ValueV, value_eq};

verus! {

/// A boolean/comparison filter tree over one document's fields.
#[derive(Debug)]
pub enum Filter {
    /// Matches every document.
    All,
    /// The named field equals the comparand; on an array field, the array
    /// contains it; a `Null` comparand also matches an absent field.
    Equals(String, Value),
    And(Box<Filter>, Box<Filter>),
    Or(Box<Filter>, Box<Filter>),
    Not(Box<Filter>),
}

/// Mathematical model of a `Filter`.
#[verifier::ext_equal]
pub enum FilterV {
    All,
    Equals(Seq<char>, ValueV),
    And(Box<FilterV>, Box<FilterV>),
    Or(Box<FilterV>, Box<FilterV>),
    Not(Box<FilterV>),
}

/// The view of a filter tree.
pub open spec fn filter_view(f: Filter) -> FilterV
    decreases f,
{
    match f {
        Filter::All => FilterV::All,
        Filter::Equals(name, v) => FilterV::Equals(name@, v@),
        Filter::And(a, b) => FilterV::And(Box::new(filter_view(*a)), Box::new(filter_view(*b))),
        Filter::Or(a, b) => FilterV::Or(Box::new(filter_view(*a)), Box::new(filter_view(*b))),
        Filter::Not(a) => FilterV::Not(Box::new(filter_view(*a))),
    }
}

impl View for Filter {
    type V = FilterV;

    open spec fn view(&self) -> FilterV {
        filter_view(*self)
    }
}

/// Whether a document satisfies a filter, under a model. A comparand equal to
/// the stored scalar matches; on an array field, membership matches; a `Null`
/// comparand also matches an absent or unknown field.
pub open spec fn spec_matches(m: crate::model::ModelV, d: DocV, f: FilterV) -> bool
    decreases f,
{
    match f {
        FilterV::All => true,
        FilterV::Equals(name, v) => if m.has_field(name) {
            match d[m.field_index(name)] {
                Option::None => v is Null,
                Option::Some(DocValueV::Scalar(w)) => w == v,
                Option::Some(DocValueV::Array(xs)) => seq_contains(xs, v),
            }
        } else {
            v is Null
        },
        FilterV::And(a, b) => spec_matches(m, d, *a) && spec_matches(m, d, *b),
        FilterV::Or(a, b) => spec_matches(m, d, *a) || spec_matches(m, d, *b),
        FilterV::Not(a) => !spec_matches(m, d, *a),
    }
}


/// Evaluates a filter against one document.
pub fn matches_doc(model: &ModelDef, doc: &Document, f: &Filter) -> (r: bool)
    requires
        model@.wf(),
        doc@.len() == model@.fields.len(),
    ensures
        r == spec_matches(model@, doc@, f@),
    decreases *f,
{
    match f {
        Filter::All => true,
        Filter::Equals(name, v) => {
            match model.find_field(name.as_str()) {
                Option::Some(i) => {
                    assert(doc.fields@.len() == doc@.len());
                    assert(slot_view(doc.fields@[i as int]) == doc@[i as int]);
                    match &doc.fields[i] {
                        Option::None => matches!(v, Value::Null),
                        Option::Some(DocValue::Scalar(w)) => value_eq(w, v),
                        Option::Some(DocValue::Array(xs)) => {
                            crate::store::contains_value(xs, v)
                        },
                    }
                },
                Option::None => matches!(v, Value::Null),
            }
        },
        Filter::And(a, b) => matches_doc(model, doc, a) && matches_doc(model, doc, b),
        Filter::Or(a, b) => matches_doc(model, doc, a) || matches_doc(model, doc, b),
        Filter::Not(a) => !matches_doc(model, doc, a),
    }
}

/// A Record Filter: explicit Selection Results when the target keys are
/// already known, otherwise a filter tree to evaluate.
#[derive(Debug)]
pub struct RecordFilter {
    pub filter: Filter,
    pub selectors: Option<Vec<SelectionResult>>,
}

/// Mathematical model of a `RecordFilter`.
#[verifier::ext_equal]
pub struct RecordFilterV {
    pub filter: FilterV,
    pub selectors: Option<Seq<SelectionV>>,
}

impl View for RecordFilter {
    type V = RecordFilterV;

    open spec fn view(&self) -> RecordFilterV {
        RecordFilterV {
            filter: self.filter@,
            selectors: match &self.selectors {
                Option::Some(sels) => Option::Some(
                    sels@.map_values(|s: SelectionResult| s@),
                ),
                Option::None => Option::None,
            },
        }
    }
}

impl RecordFilter {
    /// Well-formedness: explicit Selection Results, if given, are non-empty.
    pub open spec fn wf(&self) -> bool {
        match self@.selectors {
            Option::Some(sels) => forall|i: int| 0 <= i < sels.len() ==> (#[trigger] sels[i]).len()
                >= 1,
            Option::None => true,
        }
    }

    /// A filter from explicit Selection Results.
    pub fn from_selectors(sels: Vec<SelectionResult>) -> (r: RecordFilter)
        ensures
            r@.selectors == Option::Some(sels@.map_values(|s: SelectionResult| s@)),
    {
        RecordFilter { filter: Filter::All, selectors: Option::Some(sels) }
    }

    /// A filter from a filter tree.
    pub fn from_filter(filter: Filter) -> (r: RecordFilter)
        ensures
            r@.selectors is None,
            r@.filter == filter@,
    {
        RecordFilter { filter, selectors: Option::None }
    }
}

} // verus!
