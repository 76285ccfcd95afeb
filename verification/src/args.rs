//! Write Argument Sets and Selection Results.
//!
//! A Write Argument Set maps destination field names to Write Expressions:
//! either a literal value to set, or an atomic modifier. A Selection Result is
//! an ordered, non-empty list of (field, value) pairs that uniquely identifies
//! one record.
use vstd::prelude::*;
use crate::value::{Value, ValueV};

verus! {

/// A field-level write instruction: a literal replacement or an atomic
/// modifier.
#[derive(Clone, Debug)]
pub enum WriteExpression {
    /// Set the field to this scalar.
    Value(Value),
    /// Set the field to this array.
    ValueList(Vec<Value>),
    /// Atomically increment an integer field.
    Add(i64),
    /// Atomically decrement an integer field.
    Subtract(i64),
    /// Atomically append one member to an array field.
    Push(Value),
}

/// Mathematical model of a `WriteExpression`.
#[verifier::ext_equal]
pub enum WriteExprV {
    Value(ValueV),
    ValueList(Seq<ValueV>),
    Add(int),
    Subtract(int),
    Push(ValueV),
}

impl View for WriteExpression {
    type V = WriteExprV;

    open spec fn view(&self) -> WriteExprV {
        match self {
            WriteExpression::Value(v) => WriteExprV::Value(v@),
            WriteExpression::ValueList(vs) => WriteExprV::ValueList(
                vs@.map_values(|e: Value| e@),
            ),
            WriteExpression::Add(n) => WriteExprV::Add(*n as int),
            WriteExpression::Subtract(n) => WriteExprV::Subtract(*n as int),
            WriteExpression::Push(v) => WriteExprV::Push(v@),
        }
    }
}

/// One record's mutation: field database names mapped to Write Expressions,
/// names unique.
#[derive(Clone, Debug)]
pub struct WriteArgs {
    pub entries: Vec<(String, WriteExpression)>,
}

/// The view of a Write Argument Set: a sequence of (name, expression) pairs.
pub type ArgsV = Seq<(Seq<char>, WriteExprV)>;

impl View for WriteArgs {
    type V = ArgsV;

    open spec fn view(&self) -> ArgsV {
        self.entries@.map_values(|p: (String, WriteExpression)| (p.0@, p.1@))
    }
}

/// Well-formedness of a Write Argument Set: keys are unique.
pub open spec fn args_wf(a: ArgsV) -> bool {
    forall|i: int, j: int| 0 <= i < j < a.len() ==> a[i].0 != a[j].0
}

/// Whether the set holds an expression for this field name.
pub open spec fn args_has(a: ArgsV, name: Seq<char>) -> bool {
    exists|i: int| 0 <= i < a.len() && a[i].0 == name
}

/// The index of this field name's entry.
pub open spec fn args_index(a: ArgsV, name: Seq<char>) -> int {
    choose|i: int| 0 <= i < a.len() && a[i].0 == name
}

/// The expression written for this field name.
pub open spec fn args_value(a: ArgsV, name: Seq<char>) -> WriteExprV {
    a[args_index(a, name)].1
}

impl WriteArgs {
    /// An empty Write Argument Set.
    pub fn new() -> (r: WriteArgs)
        ensures
            r@ == Seq::<(Seq<char>, WriteExprV)>::empty(),
    {
        WriteArgs { entries: Vec::new() }
    }

    /// Looks up the expression written for a field database name.
    pub fn get_arg(&self, name: &str) -> (r: Option<&WriteExpression>)
        requires
            args_wf(self@),
        ensures
            match r {
                Some(e) => args_has(self@, name@) && e@ == args_value(self@, name@),
                None => !args_has(self@, name@),
            },
    {
        let name_owned = name.to_owned();
        let n = self.entries.len();
        let mut i: usize = 0;
        while i < n
            invariant
                name_owned@ == name@,
                n == self@.len(),
                0 <= i <= n,
                args_wf(self@),
                forall|j: int| 0 <= j < i ==> self@[j].0 != name@,
            decreases n - i,
        {
            if self.entries[i].0.eq(&name_owned) {
                assert(self@[i as int].0 == name@);
                return Some(&self.entries[i].1);
            }
            i += 1;
        }
        None
    }
}

/// A minimal ordered, non-empty set of (field database name, value) pairs
/// uniquely identifying one record.
#[derive(Clone, Debug)]
pub struct SelectionResult {
    pub pairs: Vec<(String, Value)>,
}

/// The view of a Selection Result.
pub type SelectionV = Seq<(Seq<char>, ValueV)>;

impl View for SelectionResult {
    type V = SelectionV;

    open spec fn view(&self) -> SelectionV {
        self.pairs@.map_values(|p: (String, Value)| (p.0@, p.1@))
    }
}

impl SelectionResult {
    /// Well-formedness: at least one pair.
    pub open spec fn wf(&self) -> bool {
        self@.len() >= 1
    }

    /// Builds the Selection Result of one (field, value) pair.
    pub fn from_pair(field: String, value: Value) -> (r: SelectionResult)
        ensures
            r.wf(),
            r@ =~= seq![(field@, value@)],
    {
        let mut pairs: Vec<(String, Value)> = Vec::new();
        pairs.push((field, value));
        SelectionResult { pairs }
    }

    /// The value of the first pair: for the document backend, the single
    /// primary key value.
    pub fn first_value(&self) -> (r: &Value)
        requires
            self.wf(),
        ensures
            r@ == self@[0].1,
    {
        &self.pairs[0].1
    }
}

} // verus!
