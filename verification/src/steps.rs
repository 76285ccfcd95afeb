//! Datamodel migration steps: the serializable diff vocabulary whose leaf
//! write operations ultimately resolve to backend commands.
use vstd::prelude::*;
use crate::model::FieldArity;

verus! {

/// A three-state update payload value, keeping "unset", "explicit null" and
/// "explicit value" apart.
#[derive(Clone, Debug, PartialEq)]
pub enum Setting<T> {
    /// The payload does not mention the value: leave it unchanged.
    Absent,
    /// The payload sets the value to null: clear it.
    SetToNull,
    /// The payload sets the value.
    SetTo(T),
}

impl<T> Setting<T> {
    /// Whether the payload mentions the value at all.
    pub fn is_set(&self) -> (r: bool)
        ensures
            r == !(self is Absent),
    {
        !matches!(self, Setting::Absent)
    }
}

/// An atomic change to a datamodel.
#[derive(Clone, Debug, PartialEq)]
pub enum MigrationStep {
    CreateModel(CreateModel),
    UpdateModel(UpdateModel),
    DeleteModel(DeleteModel),
    CreateDirective(CreateDirective),
    DeleteDirective(DeleteDirective),
    CreateDirectiveArgument(CreateDirectiveArgument),
    UpdateDirectiveArgument(UpdateDirectiveArgument),
    DeleteDirectiveArgument(DeleteDirectiveArgument),
    CreateField(CreateField),
    DeleteField(DeleteField),
    UpdateField(UpdateField),
    CreateEnum(CreateEnum),
    UpdateEnum(UpdateEnum),
    DeleteEnum(DeleteEnum),
}

#[derive(Clone, Debug, PartialEq, Eq, Hash)]
pub struct CreateModel {
    pub model: String,
}

#[derive(Clone, Debug, PartialEq, Eq, Hash)]
pub struct UpdateModel {
    pub model: String,
    pub new_name: Option<String>,
}

impl UpdateModel {
    /// Whether the step changes anything at all.
    pub fn is_any_option_set(&self) -> (r: bool)
        ensures
            r == (self.new_name is Some),
    {
        self.new_name.is_some()
    }
}

#[derive(Clone, Debug, PartialEq)]
pub struct DeleteModel {
    pub model: String,
}

#[derive(Clone, Debug, PartialEq)]
pub struct CreateField {
    pub model: String,
    pub field: String,
    pub tpe: String,
    pub arity: FieldArity,
    pub default: Option<MigrationExpression>,
}

#[derive(Clone, Debug, PartialEq)]
pub struct UpdateField {
    pub model: String,
    pub field: String,
    pub new_name: Option<String>,
    pub tpe: Option<String>,
    pub arity: Option<FieldArity>,
    /// Unset, explicitly cleared, or set to a new default expression.
    pub default: Setting<MigrationExpression>,
}

impl UpdateField {
    /// Whether the step changes anything at all.
    pub fn is_any_option_set(&self) -> (r: bool)
        ensures
            r == (self.new_name is Some || self.tpe is Some || self.arity is Some || !(self.default
                is Absent)),
    {
        self.new_name.is_some() || self.tpe.is_some() || self.arity.is_some()
            || self.default.is_set()
    }
}

#[derive(Clone, Debug, PartialEq)]
pub struct DeleteField {
    pub model: String,
    pub field: String,
}

#[derive(Clone, Debug, PartialEq)]
pub struct CreateEnum {
    pub enum_name: String,
    pub values: Vec<String>,
}

#[derive(Clone, Debug, PartialEq)]
pub struct UpdateEnum {
    pub enum_name: String,
    pub new_name: Option<String>,
    pub created_values: Vec<String>,
    pub deleted_values: Vec<String>,
}

impl UpdateEnum {
    /// Whether the step changes anything at all.
    pub fn is_any_option_set(&self) -> (r: bool)
        ensures
            r == (self.new_name is Some || self.created_values@.len() > 0
                || self.deleted_values@.len() > 0),
    {
        self.new_name.is_some() || self.created_values.len() > 0 || self.deleted_values.len() > 0
    }
}

#[derive(Clone, Debug, PartialEq)]
pub struct DeleteEnum {
    pub enum_name: String,
}

#[derive(Clone, Debug, PartialEq)]
pub struct CreateDirective {
    pub locator: DirectiveLocator,
}

#[derive(Clone, Debug, PartialEq)]
pub struct DeleteDirective {
    pub locator: DirectiveLocator,
}

#[derive(Clone, Debug, PartialEq)]
pub struct DirectiveLocator {
    pub location: DirectiveLocation,
    pub directive: String,
}

/// Where a directive sits: on a field, on a model, or on an enum.
#[derive(Clone, Debug, PartialEq)]
pub enum DirectiveLocation {
    Field { model: String, field: String },
    Model { model: String },
    Enum { enum_name: String },
}

#[derive(Clone, Debug, PartialEq)]
pub struct CreateDirectiveArgument {
    pub directive_location: DirectiveLocator,
    pub argument: String,
    pub value: MigrationExpression,
}

#[derive(Clone, Debug, PartialEq)]
pub struct DeleteDirectiveArgument {
    pub directive_location: DirectiveLocator,
    pub argument: String,
}

#[derive(Clone, Debug, PartialEq)]
pub struct UpdateDirectiveArgument {
    pub directive_location: DirectiveLocator,
    pub argument: String,
    pub new_value: MigrationExpression,
}

/// A datamodel expression, carried as its rendered text.
#[derive(Clone, Debug, PartialEq)]
pub struct MigrationExpression(pub String);

} // verus!
