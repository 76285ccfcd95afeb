//! Raw command support: classifying a raw query into a native command, and
//! stripping the volatile fields from a raw command response.
//!
//! Running the command against a backend is the caller's concern; this module
//! holds the decisions around it.
use vstd::prelude::*;
use crate::error::Error;
use crate::model::ModelDef;
use crate::store::{doc_value_dup, slot_view};
use crate::value::{DocValue, DocValueV};

verus! {

/// A free-form, name-keyed payload: a raw command, its options, or a raw
/// command response.
#[derive(Debug)]
pub struct RawDocument {
    pub pairs: Vec<(String, DocValue)>,
}

/// The view of a raw payload.
pub type RawDocV = Seq<(Seq<char>, DocValueV)>;

impl View for RawDocument {
    type V = RawDocV;

    open spec fn view(&self) -> RawDocV {
        self.pairs@.map_values(|p: (String, DocValue)| (p.0@, p.1@))
    }
}

/// Copies a raw payload; the copy has the same view.
pub fn raw_document_dup(d: &RawDocument) -> (r: RawDocument)
    ensures
        r@ == d@,
{
    let n = d.pairs.len();
    let mut out: Vec<(String, DocValue)> = Vec::new();
    let mut i: usize = 0;
    while i < n
        invariant
            n == d.pairs@.len(),
            0 <= i <= n,
            out@.len() == i,
            forall|j: int|
                0 <= j < i ==> out@[j].0@ == d.pairs@[j].0@ && out@[j].1@ == d.pairs@[j].1@,
        decreases n - i,
    {
        out.push((d.pairs[i].0.clone(), doc_value_dup(&d.pairs[i].1)));
        i += 1;
    }
    let r = RawDocument { pairs: out };
    assert(r@ =~= d@);
    r
}

/// A recognized named read operation, with its free-form options payload.
#[derive(Debug)]
pub enum MongoOperation {
    Find(RawDocument),
    Aggregate(RawDocument),
}

/// Mathematical model of a `MongoOperation`.
#[verifier::ext_equal]
pub enum MongoOperationV {
    Find(RawDocV),
    Aggregate(RawDocV),
}

impl View for MongoOperation {
    type V = MongoOperationV;

    open spec fn view(&self) -> MongoOperationV {
        match self {
            MongoOperation::Find(d) => MongoOperationV::Find(d@),
            MongoOperation::Aggregate(d) => MongoOperationV::Aggregate(d@),
        }
    }
}

/// The native command a raw query runs: either a verbatim command payload, or
/// a recognized named operation against a collection.
#[derive(Debug)]
pub enum MongoCommand {
    Raw(RawDocument),
    Handled { collection: String, operation: MongoOperation },
}

/// Mathematical model of a `MongoCommand`.
#[verifier::ext_equal]
pub enum MongoCommandV {
    Raw(RawDocV),
    Handled { collection: Seq<char>, operation: MongoOperationV },
}

impl View for MongoCommand {
    type V = MongoCommandV;

    open spec fn view(&self) -> MongoCommandV {
        match self {
            MongoCommand::Raw(d) => MongoCommandV::Raw(d@),
            MongoCommand::Handled { collection, operation } => MongoCommandV::Handled {
                collection: collection@,
                operation: operation@,
            },
        }
    }
}

/// The command a raw query classifies to: the recognized named operations
/// against the model's collection when a model and a matching query type are
/// supplied, otherwise the inputs run verbatim as a command payload.
pub open spec fn spec_raw_command(
    model: Option<ModelDef>,
    inputs: RawDocV,
    query_type: Option<Seq<char>>,
) -> MongoCommandV {
    match (model, query_type) {
        (Option::Some(m), Option::Some(qt)) => if qt == "findRaw"@ {
            MongoCommandV::Handled {
                collection: m@.db_name,
                operation: MongoOperationV::Find(inputs),
            }
        } else if qt == "aggregateRaw"@ {
            MongoCommandV::Handled {
                collection: m@.db_name,
                operation: MongoOperationV::Aggregate(inputs),
            }
        } else {
            MongoCommandV::Raw(inputs)
        },
        _ => MongoCommandV::Raw(inputs),
    }
}

/// Classifies a raw query into the native command to run: a recognized named
/// operation (`findRaw`, `aggregateRaw`) with a target collection derived
/// from the supplied model, or, for anything else, the generic "run raw
/// command" path with the inputs taken verbatim.
pub fn query_raw(model: Option<&ModelDef>, inputs: &RawDocument, query_type: Option<&String>) -> (r:
    MongoCommand)
    ensures
        r@ == spec_raw_command(
            match model {
                Option::Some(m) => Option::Some(*m),
                Option::None => Option::None,
            },
            inputs@,
            match query_type {
                Option::Some(s) => Option::Some(s@),
                Option::None => Option::None,
            },
        ),
{
    match (model, query_type) {
        (Option::Some(m), Option::Some(qt)) => {
            let find_name = "findRaw".to_owned();
            let aggregate_name = "aggregateRaw".to_owned();
            if qt.eq(&find_name) {
                MongoCommand::Handled {
                    collection: m.db_name.clone(),
                    operation: MongoOperation::Find(raw_document_dup(inputs)),
                }
            } else if qt.eq(&aggregate_name) {
                MongoCommand::Handled {
                    collection: m.db_name.clone(),
                    operation: MongoOperation::Aggregate(raw_document_dup(inputs)),
                }
            } else {
                MongoCommand::Raw(raw_document_dup(inputs))
            }
        },
        _ => MongoCommand::Raw(raw_document_dup(inputs)),
    }
}

/// Raw statement execution has no meaning on the document backend: there is
/// no generic statement-execution primitive. Fails immediately.
pub fn execute_raw(inputs: &RawDocument) -> (r: Result<u64, Error>)
    ensures
        r matches Err(e) && (e matches Error::Unsupported(s) && s@ == "execute_raw"@),
{
    let _ = inputs;
    Err(Error::Unsupported("execute_raw".to_owned()))
}

/// Whether a response key is volatile: set by the backend per call and
/// meaningless to the caller.
pub open spec fn is_volatile_key(name: Seq<char>) -> bool {
    ||| name == "operationTime"@
    ||| name == "$clusterTime"@
    ||| name == "opTime"@
    ||| name == "electionId"@
}

/// A raw response with the volatile keys removed, order otherwise kept.
pub open spec fn spec_strip_volatile(d: RawDocV) -> RawDocV
    decreases d.len(),
{
    if d.len() == 0 {
        Seq::empty()
    } else {
        let prior = spec_strip_volatile(d.drop_last());
        if is_volatile_key(d.last().0) {
            prior
        } else {
            prior.push(d.last())
        }
    }
}

/// Decides whether a response key is volatile.
pub fn is_volatile(name: &String) -> (r: bool)
    ensures
        r == is_volatile_key(name@),
{
    let operation_time = "operationTime".to_owned();
    let cluster_time = "$clusterTime".to_owned();
    let op_time = "opTime".to_owned();
    let election_id = "electionId".to_owned();
    name.eq(&operation_time) || name.eq(&cluster_time) || name.eq(&op_time) || name.eq(
        &election_id,
    )
}

/// Strips the volatile, non-deterministic fields (operation timestamp,
/// cluster time, session operation time, election id) from a raw command
/// response before it is returned.
pub fn strip_volatile_fields(d: &RawDocument) -> (r: RawDocument)
    ensures
        r@ == spec_strip_volatile(d@),
{
    let n = d.pairs.len();
    let mut out: Vec<(String, DocValue)> = Vec::new();
    let mut i: usize = 0;
    proof {
        assert(RawDocument { pairs: out }@ =~= Seq::<(Seq<char>, DocValueV)>::empty());
        assert(d@.take(0) =~= Seq::<(Seq<char>, DocValueV)>::empty());
    }
    while i < n
        invariant
            n == d.pairs@.len(),
            n == d@.len(),
            0 <= i <= n,
            (RawDocument { pairs: out })@ == spec_strip_volatile(d@.take(i as int)),
        decreases n - i,
    {
        proof {
            assert(d@.take(i + 1).drop_last() =~= d@.take(i as int));
            assert(d@.take(i + 1).last() == d@[i as int]);
            assert(d@[i as int].0 == d.pairs@[i as int].0@);
        }
        if !is_volatile(&d.pairs[i].0) {
            let ghost before = RawDocument { pairs: out }@;
            out.push((d.pairs[i].0.clone(), doc_value_dup(&d.pairs[i].1)));
            proof {
                assert(RawDocument { pairs: out }@ =~= before.push(d@[i as int]));
            }
        }
        i += 1;
    }
    proof {
        assert(d@.take(n as int) =~= d@);
    }
    RawDocument { pairs: out }
}

} // verus!
