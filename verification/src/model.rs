//! The upstream model contract: a model exposes its backend-native collection
//! name, its field list (database name, scalar type, arity) and which single
//! field forms its primary key.
use vstd::prelude::*;
use crate::value::{Value, ValueV};

verus! {

/// How many values a field holds.
#[derive(Clone, Copy, Debug, PartialEq, Eq, Structural)]
pub enum FieldArity {
    Required,
    Optional,
    List,
}

/// The scalar type of a field's members.
#[derive(Clone, Copy, Debug, PartialEq, Eq, Structural)]
pub enum FieldType {
    Bool,
    Int,
    Str,
}

/// One non-relational field of a model.
#[derive(Clone, Debug)]
pub struct FieldDef {
    /// The field's backend-native (database) name.
    pub db_name: String,
    pub field_type: FieldType,
    pub arity: FieldArity,
}

/// Mathematical model of a `FieldDef`.
#[verifier::ext_equal]
pub struct FieldV {
    pub db_name: Seq<char>,
    pub field_type: FieldType,
    pub arity: FieldArity,
}

impl View for FieldDef {
    type V = FieldV;

    open spec fn view(&self) -> FieldV {
        FieldV { db_name: self.db_name@, field_type: self.field_type, arity: self.arity }
    }
}

/// Whether a concrete scalar value fits a field's declared type,
/// `Null` being admitted only on optional fields.
pub open spec fn scalar_fits(f: FieldV, v: ValueV) -> bool {
    match v {
        ValueV::Null => f.arity is Optional,
        ValueV::Bool(_) => f.field_type is Bool,
        ValueV::Int(_) => f.field_type is Int,
        ValueV::Str(_) => f.field_type is Str,
    }
}

/// Decides `scalar_fits` for a concrete field and value.
pub fn check_scalar_fits(f: &FieldDef, v: &Value) -> (r: bool)
    ensures
        r == scalar_fits(f@, v@),
{
    match v {
        Value::Null => matches!(f.arity, FieldArity::Optional),
        Value::Bool(_) => matches!(f.field_type, FieldType::Bool),
        Value::Int(_) => matches!(f.field_type, FieldType::Int),
        Value::Str(_) => matches!(f.field_type, FieldType::Str),
    }
}

/// A model: collection name, non-relational fields, and the index of the one
/// field that forms the primary key.
#[derive(Clone, Debug)]
pub struct ModelDef {
    /// The backend-native collection name.
    pub db_name: String,
    pub fields: Vec<FieldDef>,
    /// Index into `fields` of the singular primary key.
    pub id_field: usize,
}

/// Mathematical model of a `ModelDef`.
#[verifier::ext_equal]
pub struct ModelV {
    pub db_name: Seq<char>,
    pub fields: Seq<FieldV>,
    pub id_field: int,
}

impl View for ModelDef {
    type V = ModelV;

    open spec fn view(&self) -> ModelV {
        ModelV {
            db_name: self.db_name@,
            fields: self.fields@.map_values(|f: FieldDef| f@),
            id_field: self.id_field as int,
        }
    }
}

impl ModelV {
    /// Well-formedness: a valid singular primary key of a concrete scalar
    /// type, and pairwise distinct field names.
    pub open spec fn wf(self) -> bool {
        &&& 0 <= self.id_field < self.fields.len()
        &&& self.fields[self.id_field].arity is Required
        &&& forall|i: int, j: int|
            0 <= i < j < self.fields.len() ==> self.fields[i].db_name != self.fields[j].db_name
    }

    /// Whether some field carries this database name.
    pub open spec fn has_field(self, name: Seq<char>) -> bool {
        exists|i: int| 0 <= i < self.fields.len() && self.fields[i].db_name == name
    }

    /// The index of the field with this database name.
    pub open spec fn field_index(self, name: Seq<char>) -> int {
        choose|i: int| 0 <= i < self.fields.len() && self.fields[i].db_name == name
    }
}

impl ModelDef {
    /// Finds the field with the given database name, if any.
    pub fn find_field(&self, name: &str) -> (r: Option<usize>)
        requires
            self@.wf(),
        ensures
            match r {
                Some(i) => self@.has_field(name@) && i == self@.field_index(name@)
                    && 0 <= i < self@.fields.len() && self@.fields[i as int].db_name == name@,
                None => !self@.has_field(name@),
            },
    {
        let name_owned = name.to_owned();
        let n = self.fields.len();
        let mut i: usize = 0;
        while i < n
            invariant
                name_owned@ == name@,
                n == self@.fields.len(),
                0 <= i <= n,
                self@.wf(),
                forall|j: int| 0 <= j < i ==> self@.fields[j].db_name != name@,
            decreases n - i,
        {
            if self.fields[i].db_name.eq(&name_owned) {
                return Some(i);
            }
            i += 1;
        }
        None
    }
}

/// A bidirectional many-to-many relation: denormalized arrays of foreign key
/// values stored on both endpoint records, no join table.
#[derive(Clone, Debug)]
pub struct RelationField {
    pub parent_model: ModelDef,
    pub child_model: ModelDef,
    /// Index into `parent_model.fields` of the array holding child ids.
    pub parent_array_field: usize,
    /// Index into `child_model.fields` of the array holding parent ids.
    pub child_array_field: usize,
}

/// Mathematical model of a `RelationField`.
#[verifier::ext_equal]
pub struct RelationV {
    pub parent_model: ModelV,
    pub child_model: ModelV,
    pub parent_array_field: int,
    pub child_array_field: int,
}

impl View for RelationField {
    type V = RelationV;

    open spec fn view(&self) -> RelationV {
        RelationV {
            parent_model: self.parent_model@,
            child_model: self.child_model@,
            parent_array_field: self.parent_array_field as int,
            child_array_field: self.child_array_field as int,
        }
    }
}

impl RelationV {
    /// Well-formedness: both endpoint models are well formed and each side's
    /// relation array is a list field distinct from that side's primary key.
    pub open spec fn wf(self) -> bool {
        &&& self.parent_model.wf()
        &&& self.child_model.wf()
        &&& 0 <= self.parent_array_field < self.parent_model.fields.len()
        &&& self.parent_array_field != self.parent_model.id_field
        &&& self.parent_model.fields[self.parent_array_field].arity is List
        &&& 0 <= self.child_array_field < self.child_model.fields.len()
        &&& self.child_array_field != self.child_model.id_field
        &&& self.child_model.fields[self.child_array_field].arity is List
    }
}

} // verus!
