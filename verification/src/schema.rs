//! Schema system: optional schema enforcement for collections.
//!
//! Collections are schema-less by default. A registered schema lists the
//! fields of its collection with their types and constraints; inserts and
//! updates are checked against it, and defaults fill missing fields.
//! Properties are checked in the order of their entries.

use vstd::prelude::*;
use vstd::string::StringExecFns;
use crate::types::{PropertyValue, Properties, ValueView, copy_value, entry_pos, lemma_entry_pos};
use crate::text::{str_equal, concat2, concat3, contains_chars, chars_of, contains_text};

verus! {

/// Supported field types.
#[derive(Debug)]
pub enum FieldType {
    String,
    Integer,
    Float,
    Boolean,
    Timestamp,
    Bytes,
    Json,
    Array(Box<FieldType>),
}

/// Field constraints.
#[derive(Debug, Clone, PartialEq)]
pub enum Constraint {
    NotNull,
    Unique,
    Default(PropertyValue),
    /// Expression stored in `Field::check_expression`
    Check,
    PrimaryKey,
    Index,
}

/// Field definition within a schema.
#[derive(Debug)]
pub struct Field {
    pub name: String,
    pub field_type: FieldType,
    pub constraints: Vec<Constraint>,
    /// For CHECK constraints
    pub check_expression: Option<String>,
}

/// Schema definition for a collection.
#[derive(Debug)]
pub struct Schema {
    pub collection: String,
    pub fields: Vec<Field>,
    pub allow_extra_properties: bool,
    /// Indexed field names
    pub indexes: Vec<String>,
}

/// Schema validation errors.
#[derive(Debug, Clone)]
pub enum ValidationError {
    FieldRequired(String),
    TypeMismatch { field: String, expected: String, got: String },
    UniqueViolation(String),
    CheckFailed { field: String, expression: String },
    UnknownField(String),
}

/// Schema validator: the schemas of the collections that have one, at
/// most one per collection.
pub struct SchemaValidator {
    schemas: Vec<Schema>,
}

// ---------------------------------------------------------------------
// Views
// ---------------------------------------------------------------------

/// A constraint with its default value by its view.
pub enum ConstraintView {
    NotNull,
    Unique,
    Default(ValueView),
    Check,
    PrimaryKey,
    Index,
}

impl View for Constraint {
    type V = ConstraintView;

    open spec fn view(&self) -> ConstraintView {
        match self {
            Constraint::NotNull => ConstraintView::NotNull,
            Constraint::Unique => ConstraintView::Unique,
            Constraint::Default(v) => ConstraintView::Default(v@),
            Constraint::Check => ConstraintView::Check,
            Constraint::PrimaryKey => ConstraintView::PrimaryKey,
            Constraint::Index => ConstraintView::Index,
        }
    }
}

/// A field with its texts as characters.
pub struct FieldView {
    pub name: Seq<char>,
    pub field_type: FieldType,
    pub constraints: Seq<ConstraintView>,
    pub check_expression: Option<Seq<char>>,
}

impl View for Field {
    type V = FieldView;

    open spec fn view(&self) -> FieldView {
        FieldView {
            name: self.name@,
            field_type: self.field_type,
            constraints: Seq::new(self.constraints@.len(), |i: int| self.constraints@[i]@),
            check_expression: match self.check_expression {
                Some(e) => Some(e@),
                None => None,
            },
        }
    }
}

/// A schema with its texts as characters and its lists as sequences.
pub struct SchemaView {
    pub collection: Seq<char>,
    pub fields: Seq<FieldView>,
    pub allow_extra_properties: bool,
    pub indexes: Seq<Seq<char>>,
}

impl View for Schema {
    type V = SchemaView;

    open spec fn view(&self) -> SchemaView {
        SchemaView {
            collection: self.collection@,
            fields: Seq::new(self.fields@.len(), |i: int| self.fields@[i]@),
            allow_extra_properties: self.allow_extra_properties,
            indexes: Seq::new(self.indexes@.len(), |i: int| self.indexes@[i]@),
        }
    }
}

/// A validation error with its texts as characters.
pub enum ErrorView {
    FieldRequired(Seq<char>),
    TypeMismatch { field: Seq<char>, expected: Seq<char>, got: Seq<char> },
    UniqueViolation(Seq<char>),
    CheckFailed { field: Seq<char>, expression: Seq<char> },
    UnknownField(Seq<char>),
}

impl View for ValidationError {
    type V = ErrorView;

    open spec fn view(&self) -> ErrorView {
        match self {
            ValidationError::FieldRequired(f) => ErrorView::FieldRequired(f@),
            ValidationError::TypeMismatch { field, expected, got } => ErrorView::TypeMismatch {
                field: field@,
                expected: expected@,
                got: got@,
            },
            ValidationError::UniqueViolation(f) => ErrorView::UniqueViolation(f@),
            ValidationError::CheckFailed { field, expression } => ErrorView::CheckFailed {
                field: field@,
                expression: expression@,
            },
            ValidationError::UnknownField(f) => ErrorView::UnknownField(f@),
        }
    }
}

// ---------------------------------------------------------------------
// Rules
// ---------------------------------------------------------------------

/// A value may be stored in a field of a type: its own type, an integer in
/// a float field, and null in any field.
pub open spec fn type_matches(t: FieldType, v: ValueView) -> bool {
    match (t, v) {
        (FieldType::String, ValueView::String(_)) => true,
        (FieldType::Integer, ValueView::Int(_)) => true,
        (FieldType::Float, ValueView::Float(_)) => true,
        (FieldType::Boolean, ValueView::Bool(_)) => true,
        (FieldType::Bytes, ValueView::Bytes(_)) => true,
        (FieldType::Float, ValueView::Int(_)) => true,
        (_, ValueView::Null) => true,
        _ => false,
    }
}

/// The name of a type in error messages.
pub open spec fn field_type_name(t: FieldType) -> Seq<char>
    decreases t,
{
    match t {
        FieldType::String => "String"@,
        FieldType::Integer => "Integer"@,
        FieldType::Float => "Float"@,
        FieldType::Boolean => "Boolean"@,
        FieldType::Timestamp => "Timestamp"@,
        FieldType::Bytes => "Bytes"@,
        FieldType::Json => "Json"@,
        FieldType::Array(inner) => "Array<"@ + field_type_name(*inner) + ">"@,
    }
}

/// The type name of a value in error messages.
pub open spec fn value_type_name(v: ValueView) -> Seq<char> {
    match v {
        ValueView::Null => "Null"@,
        ValueView::Bool(_) => "Boolean"@,
        ValueView::Int(_) => "Integer"@,
        ValueView::Float(_) => "Float"@,
        ValueView::String(_) => "String"@,
        ValueView::Bytes(_) => "Bytes"@,
    }
}

/// The constraints include `c`.
pub open spec fn has(cs: Seq<ConstraintView>, c: ConstraintView) -> bool {
    exists|i: int| 0 <= i < cs.len() && cs[i] == c
}

/// The value of the first `Default` constraint at or after `i`.
pub open spec fn default_from(cs: Seq<ConstraintView>, i: int) -> Option<ValueView>
    decreases cs.len() - i,
{
    if i < 0 || i >= cs.len() {
        None
    } else {
        match cs[i] {
            ConstraintView::Default(v) => Some(v),
            _ => default_from(cs, i + 1),
        }
    }
}

/// The first field at or after `i` named `name`.
pub open spec fn field_pos(fields: Seq<FieldView>, name: Seq<char>, i: int) -> Option<int>
    decreases fields.len() - i,
{
    if i < 0 || i >= fields.len() {
        None
    } else if fields[i].name == name {
        Some(i)
    } else {
        field_pos(fields, name, i + 1)
    }
}

/// The CHECK evaluation this version performs: an integer passes a range
/// expression (one holding `>=` and `<=`) when it is not negative; every
/// other value passes.
pub open spec fn check_passes(v: ValueView, expression: Seq<char>) -> bool {
    match v {
        ValueView::Int(n) => if contains_text(expression, ">="@) && contains_text(expression, "<="@) {
            n >= 0
        } else {
            true
        },
        _ => true,
    }
}

/// What is wrong with the property `name = v` under schema `s`, if
/// anything: a field's type, a null in a NOT NULL field, a failed CHECK,
/// or an unknown name where extra properties are not allowed.
pub open spec fn property_error(s: SchemaView, name: Seq<char>, v: ValueView) -> Option<ErrorView> {
    match field_pos(s.fields, name, 0) {
        Some(i) => {
            let f = s.fields[i];
            if !type_matches(f.field_type, v) {
                Some(ErrorView::TypeMismatch { field: name, expected: field_type_name(f.field_type), got: value_type_name(v) })
            } else if has(f.constraints, ConstraintView::NotNull) && v is Null {
                Some(ErrorView::FieldRequired(name))
            } else if has(f.constraints, ConstraintView::Check) && f.check_expression is Some && !check_passes(
                v,
                f.check_expression->0,
            ) {
                Some(ErrorView::CheckFailed { field: name, expression: f.check_expression->0 })
            } else {
                None
            }
        },
        None => if !s.allow_extra_properties {
            Some(ErrorView::UnknownField(name))
        } else {
            None
        },
    }
}

/// The first error among the properties at or after `j`.
pub open spec fn properties_error(s: SchemaView, es: Seq<(Seq<char>, ValueView)>, j: int) -> Option<ErrorView>
    decreases es.len() - j,
{
    if j < 0 || j >= es.len() {
        None
    } else {
        match property_error(s, es[j].0, es[j].1) {
            Some(e) => Some(e),
            None => properties_error(s, es, j + 1),
        }
    }
}

/// A required field (NOT NULL or PRIMARY KEY) missing from the properties
/// without a default, at or after field `i`.
pub open spec fn required_error(s: SchemaView, es: Seq<(Seq<char>, ValueView)>, i: int) -> Option<ErrorView>
    decreases s.fields.len() - i,
{
    if i < 0 || i >= s.fields.len() {
        None
    } else {
        let f = s.fields[i];
        if (has(f.constraints, ConstraintView::NotNull) || has(f.constraints, ConstraintView::PrimaryKey))
            && entry_pos(es, f.name, 0) is None && default_from(f.constraints, 0) is None {
            Some(ErrorView::FieldRequired(f.name))
        } else {
            required_error(s, es, i + 1)
        }
    }
}

/// An insert's properties checked against a schema: required fields
/// first, then each property.
pub open spec fn insert_verdict(s: SchemaView, es: Seq<(Seq<char>, ValueView)>) -> Result<(), ErrorView> {
    match required_error(s, es, 0) {
        Some(e) => Err(e),
        None => match properties_error(s, es, 0) {
            Some(e) => Err(e),
            None => Ok(()),
        },
    }
}

/// An update's properties checked against a schema.
pub open spec fn update_verdict(s: SchemaView, es: Seq<(Seq<char>, ValueView)>) -> Result<(), ErrorView> {
    match properties_error(s, es, 0) {
        Some(e) => Err(e),
        None => Ok(()),
    }
}

/// The properties after the defaults of the first `n` fields: each field
/// that is missing and has a default is added with it.
pub open spec fn with_defaults(es: Seq<(Seq<char>, ValueView)>, fields: Seq<FieldView>, n: int) -> Seq<
    (Seq<char>, ValueView),
>
    decreases n,
{
    if n <= 0 {
        es
    } else {
        let prev = with_defaults(es, fields, n - 1);
        let f = fields[n - 1];
        if entry_pos(prev, f.name, 0) is None && default_from(f.constraints, 0) is Some {
            prev.push((f.name, default_from(f.constraints, 0)->0))
        } else {
            prev
        }
    }
}

/// The first schema at or after `i` of the collection `c`.
pub open spec fn schema_pos(ss: Seq<SchemaView>, c: Seq<char>, i: int) -> Option<int>
    decreases ss.len() - i,
{
    if i < 0 || i >= ss.len() {
        None
    } else if ss[i].collection == c {
        Some(i)
    } else {
        schema_pos(ss, c, i + 1)
    }
}

/// The schema of the collection `c`, if it has one.
pub open spec fn schema_of(ss: Seq<SchemaView>, c: Seq<char>) -> Option<SchemaView> {
    match schema_pos(ss, c, 0) {
        Some(i) => Some(ss[i]),
        None => None,
    }
}

/// The constraints of a field, by their views.
pub open spec fn constraints_view(cs: Seq<Constraint>) -> Seq<ConstraintView> {
    Seq::new(cs.len(), |i: int| cs[i]@)
}

/// The message of a validation error.
pub open spec fn error_message(e: ErrorView) -> Seq<char> {
    match e {
        ErrorView::FieldRequired(f) => "Field '"@ + f + "' is required"@,
        ErrorView::TypeMismatch { field, expected, got } => "Type mismatch for '"@ + field + "': expected "@
            + expected + ", got "@ + got,
        ErrorView::UniqueViolation(f) => "UNIQUE constraint violation on '"@ + f + "'"@,
        ErrorView::CheckFailed { field, expression } => "CHECK constraint failed for '"@ + field + "': "@
            + expression,
        ErrorView::UnknownField(f) => "Unknown field '"@ + f + "' (schema doesn't allow extra properties)"@,
    }
}

impl ValidationError {
    /// The error as text.
    pub fn message(&self) -> (r: String)
        ensures
            r@ == error_message(self@),
    {
        match self {
            ValidationError::FieldRequired(f) => concat3("Field '", f.as_str(), "' is required"),
            ValidationError::TypeMismatch { field, expected, got } => {
                let a = concat3("Type mismatch for '", field.as_str(), "': expected ");
                let b = concat3(a.as_str(), expected.as_str(), ", got ");
                concat2(b.as_str(), got.as_str())
            },
            ValidationError::UniqueViolation(f) => concat3("UNIQUE constraint violation on '", f.as_str(), "'"),
            ValidationError::CheckFailed { field, expression } => {
                let a = concat3("CHECK constraint failed for '", field.as_str(), "': ");
                concat2(a.as_str(), expression.as_str())
            },
            ValidationError::UnknownField(f) => concat3(
                "Unknown field '",
                f.as_str(),
                "' (schema doesn't allow extra properties)",
            ),
        }
    }
}

/// Byte-wise equality.
fn bytes_equal(a: &Vec<u8>, b: &Vec<u8>) -> (r: bool)
    ensures
        r == (a@ == b@),
{
    if a.len() != b.len() {
        return false;
    }
    let mut i: usize = 0;
    while i < a.len()
        invariant
            a.len() == b.len(),
            i <= a.len(),
            forall|k: int| 0 <= k < i ==> a@[k] == b@[k],
        decreases a.len() - i,
    {
        if a[i] != b[i] {
            return false;
        }
        i = i + 1;
    }
    assert(a@ =~= b@);
    true
}

/// Equality of property values (a float by its bits).
fn values_equal(a: &PropertyValue, b: &PropertyValue) -> (r: bool)
    ensures
        r == (a@ == b@),
{
    match (a, b) {
        (PropertyValue::Null, PropertyValue::Null) => true,
        (PropertyValue::Bool(x), PropertyValue::Bool(y)) => *x == *y,
        (PropertyValue::Int(x), PropertyValue::Int(y)) => *x == *y,
        (PropertyValue::Float(x), PropertyValue::Float(y)) => *x == *y,
        (PropertyValue::String(x), PropertyValue::String(y)) => str_equal(x.as_str(), y.as_str()),
        (PropertyValue::Bytes(x), PropertyValue::Bytes(y)) => bytes_equal(x, y),
        _ => false,
    }
}

/// Equality of constraints (a default by its value).
fn constraints_equal(a: &Constraint, b: &Constraint) -> (r: bool)
    ensures
        r == (a@ == b@),
{
    match (a, b) {
        (Constraint::NotNull, Constraint::NotNull) => true,
        (Constraint::Unique, Constraint::Unique) => true,
        (Constraint::Default(x), Constraint::Default(y)) => values_equal(x, y),
        (Constraint::Check, Constraint::Check) => true,
        (Constraint::PrimaryKey, Constraint::PrimaryKey) => true,
        (Constraint::Index, Constraint::Index) => true,
        _ => false,
    }
}

/// The constraints include `c`.
fn contains_constraint(cs: &Vec<Constraint>, c: &Constraint) -> (r: bool)
    ensures
        r == has(constraints_view(cs@), c@),
{
    let ghost v = constraints_view(cs@);
    let mut i: usize = 0;
    while i < cs.len()
        invariant
            v == constraints_view(cs@),
            i <= cs.len(),
            forall|k: int| 0 <= k < i ==> v[k] != c@,
        decreases cs.len() - i,
    {
        if constraints_equal(&cs[i], c) {
            assert(v[i as int] == c@);
            return true;
        }
        i = i + 1;
    }
    false
}

/// The value of the first `Default` constraint.
fn first_default(cs: &Vec<Constraint>) -> (r: Option<&PropertyValue>)
    ensures
        match default_from(constraints_view(cs@), 0) {
            Some(d) => r matches Some(x) && x@ == d,
            None => r is None,
        },
{
    let ghost v = constraints_view(cs@);
    let mut i: usize = 0;
    while i < cs.len()
        invariant
            v == constraints_view(cs@),
            i <= cs.len(),
            default_from(v, 0) == default_from(v, i as int),
        decreases cs.len() - i,
    {
        if let Constraint::Default(value) = &cs[i] {
            assert(v[i as int] == ConstraintView::Default(value@));
            return Some(value);
        }
        i = i + 1;
    }
    None
}

impl FieldType {
    /// Whether a value may be stored in a field of this type.
    pub fn matches(&self, value: &PropertyValue) -> (r: bool)
        ensures
            r == type_matches(*self, value@),
    {
        match (self, value) {
            (FieldType::String, PropertyValue::String(_)) => true,
            (FieldType::Integer, PropertyValue::Int(_)) => true,
            (FieldType::Float, PropertyValue::Float(_)) => true,
            (FieldType::Boolean, PropertyValue::Bool(_)) => true,
            (FieldType::Bytes, PropertyValue::Bytes(_)) => true,
            (FieldType::Float, PropertyValue::Int(_)) => true,
            (_, PropertyValue::Null) => true,
            _ => false,
        }
    }

    /// The type name for error messages.
    pub fn name(&self) -> (r: String)
        ensures
            r@ == field_type_name(*self),
        decreases self,
    {
        match self {
            FieldType::String => String::from_str("String"),
            FieldType::Integer => String::from_str("Integer"),
            FieldType::Float => String::from_str("Float"),
            FieldType::Boolean => String::from_str("Boolean"),
            FieldType::Timestamp => String::from_str("Timestamp"),
            FieldType::Bytes => String::from_str("Bytes"),
            FieldType::Json => String::from_str("Json"),
            FieldType::Array(inner) => {
                let n = inner.name();
                concat3("Array<", n.as_str(), ">")
            },
        }
    }
}

impl Field {
    pub fn new(name: String, field_type: FieldType) -> (r: Self)
        ensures
            r.name@ == name@,
            r.field_type == field_type,
            r.constraints@.len() == 0,
            r.check_expression is None,
    {
        Field { name, field_type, constraints: Vec::new(), check_expression: None }
    }

    /// The field with one more constraint.
    pub fn with_constraint(self, constraint: Constraint) -> (r: Self)
        ensures
            r@ == (FieldView { constraints: self@.constraints.push(constraint@), ..self@ }),
    {
        let mut f = self;
        f.constraints.push(constraint);
        assert(constraints_view(f.constraints@) =~= constraints_view(self.constraints@).push(constraint@));
        f
    }

    /// The field with a CHECK expression (and the `Check` constraint).
    pub fn with_check(self, expression: String) -> (r: Self)
        ensures
            r@ == (FieldView {
                constraints: self@.constraints.push(ConstraintView::Check),
                check_expression: Some(expression@),
                ..self@
            }),
    {
        let mut f = self;
        f.check_expression = Some(expression);
        f.constraints.push(Constraint::Check);
        assert(constraints_view(f.constraints@) =~= constraints_view(self.constraints@).push(ConstraintView::Check));
        f
    }

    /// Whether the field has the constraint.
    pub fn has_constraint(&self, constraint: &Constraint) -> (r: bool)
        ensures
            r == has(self@.constraints, constraint@),
    {
        contains_constraint(&self.constraints, constraint)
    }

    /// The default value, if one is specified.
    pub fn get_default(&self) -> (r: Option<&PropertyValue>)
        ensures
            match default_from(self@.constraints, 0) {
                Some(d) => r matches Some(x) && x@ == d,
                None => r is None,
            },
    {
        first_default(&self.constraints)
    }
}

impl Schema {
    pub fn new(collection: String) -> (r: Self)
        ensures
            r@ == (SchemaView {
                collection: collection@,
                fields: Seq::empty(),
                allow_extra_properties: false,
                indexes: Seq::empty(),
            }),
    {
        let r = Schema { collection, fields: Vec::new(), allow_extra_properties: false, indexes: Vec::new() };
        assert(r@.fields =~= Seq::empty());
        assert(r@.indexes =~= Seq::empty());
        r
    }

    /// Add a field. PRIMARY KEY and UNIQUE fields are indexed, and so are
    /// INDEX fields (a field with both gets two index entries).
    pub fn add_field(&mut self, field: Field)
        ensures
            final(self)@ == (SchemaView {
                fields: old(self)@.fields.push(field@),
                indexes: old(self)@.indexes + (if has(field@.constraints, ConstraintView::PrimaryKey) || has(
                    field@.constraints,
                    ConstraintView::Unique,
                ) {
                    seq![field@.name]
                } else {
                    Seq::empty()
                }) + (if has(field@.constraints, ConstraintView::Index) {
                    seq![field@.name]
                } else {
                    Seq::empty()
                }),
                ..old(self)@
            }),
    {
        let ghost fv = field@;
        let ghost idx0 = old(self)@.indexes;
        if contains_constraint(&field.constraints, &Constraint::PrimaryKey) || contains_constraint(
            &field.constraints,
            &Constraint::Unique,
        ) {
            self.indexes.push(field.name.clone());
        }
        let ghost idx1 = Seq::new(self.indexes@.len(), |i: int| self.indexes@[i]@);
        assert(idx1 =~= idx0 + (if has(fv.constraints, ConstraintView::PrimaryKey) || has(
            fv.constraints,
            ConstraintView::Unique,
        ) {
            seq![fv.name]
        } else {
            Seq::empty()
        }));
        if contains_constraint(&field.constraints, &Constraint::Index) {
            self.indexes.push(field.name.clone());
        }
        let ghost idx2 = Seq::new(self.indexes@.len(), |i: int| self.indexes@[i]@);
        assert(idx2 =~= idx1 + (if has(fv.constraints, ConstraintView::Index) {
            seq![fv.name]
        } else {
            Seq::empty()
        }));
        let ghost fields0 = self@.fields;
        self.fields.push(field);
        assert(self@.fields =~= fields0.push(fv));
    }

    /// The first field named `name`.
    pub fn get_field(&self, name: &str) -> (r: Option<&Field>)
        ensures
            match field_pos(self@.fields, name@, 0) {
                Some(i) => r matches Some(f) && f@ == self@.fields[i],
                None => r is None,
            },
    {
        let ghost fs = self@.fields;
        let mut i: usize = 0;
        while i < self.fields.len()
            invariant
                fs == self@.fields,
                i <= self.fields.len(),
                field_pos(fs, name@, 0) == field_pos(fs, name@, i as int),
            decreases self.fields.len() - i,
        {
            if str_equal(self.fields[i].name.as_str(), name) {
                assert(fs[i as int].name == name@);
                return Some(&self.fields[i]);
            }
            i = i + 1;
        }
        None
    }

    /// Whether the first field named `field_name` has the constraint.
    pub fn has_constraint(&self, field_name: &str, constraint: &Constraint) -> (r: bool)
        ensures
            r == match field_pos(self@.fields, field_name@, 0) {
                Some(i) => has(self@.fields[i].constraints, constraint@),
                None => false,
            },
    {
        match self.get_field(field_name) {
            Some(field) => field.has_constraint(constraint),
            None => false,
        }
    }
}

/// The verdict of a validation, by its view.
pub open spec fn verdict_view(r: Result<(), ValidationError>) -> Result<(), ErrorView> {
    match r {
        Ok(()) => Ok(()),
        Err(e) => Err(e@),
    }
}

/// The type name of a value.
fn type_name_of(value: &PropertyValue) -> (r: String)
    ensures
        r@ == value_type_name(value@),
{
    match value {
        PropertyValue::Null => String::from_str("Null"),
        PropertyValue::Bool(_) => String::from_str("Boolean"),
        PropertyValue::Int(_) => String::from_str("Integer"),
        PropertyValue::Float(_) => String::from_str("Float"),
        PropertyValue::String(_) => String::from_str("String"),
        PropertyValue::Bytes(_) => String::from_str("Bytes"),
    }
}

/// The CHECK evaluation of this version (see `check_passes`).
fn evaluate_check(value: &PropertyValue, expression: &str) -> (r: bool)
    ensures
        r == check_passes(value@, expression@),
{
    if let PropertyValue::Int(n) = value {
        let text = chars_of(expression);
        if contains_chars(&text, ">=") && contains_chars(&text, "<=") {
            return *n >= 0;
        }
    }
    true
}

/// What is wrong with the property `name = value` under `schema`.
fn check_property(schema: &Schema, name: &String, value: &PropertyValue) -> (r: Option<ValidationError>)
    ensures
        match property_error(schema@, name@, value@) {
            Some(e) => r matches Some(x) && x@ == e,
            None => r is None,
        },
{
    match schema.get_field(name.as_str()) {
        Some(field) => {
            if !field.field_type.matches(value) {
                return Some(
                    ValidationError::TypeMismatch {
                        field: name.clone(),
                        expected: field.field_type.name(),
                        got: type_name_of(value),
                    },
                );
            }
            let is_null = match value {
                PropertyValue::Null => true,
                _ => false,
            };
            if field.has_constraint(&Constraint::NotNull) && is_null {
                return Some(ValidationError::FieldRequired(name.clone()));
            }
            if field.has_constraint(&Constraint::Check) {
                if let Some(expr) = &field.check_expression {
                    if !evaluate_check(value, expr.as_str()) {
                        return Some(ValidationError::CheckFailed { field: name.clone(), expression: expr.clone() });
                    }
                }
            }
            None
        },
        None => {
            if !schema.allow_extra_properties {
                Some(ValidationError::UnknownField(name.clone()))
            } else {
                None
            }
        },
    }
}

/// The first error among the properties.
fn check_properties(schema: &Schema, properties: &Properties) -> (r: Option<ValidationError>)
    ensures
        match properties_error(schema@, properties.entries_spec(), 0) {
            Some(e) => r matches Some(x) && x@ == e,
            None => r is None,
        },
{
    let entries = properties.entries();
    let ghost es = properties.entries_spec();
    let mut j: usize = 0;
    while j < entries.len()
        invariant
            es == properties.entries_spec(),
            Seq::new(entries@.len(), |i: int| (entries@[i].0@, entries@[i].1@)) == es,
            j <= entries.len(),
            properties_error(schema@, es, 0) == properties_error(schema@, es, j as int),
        decreases entries.len() - j,
    {
        assert(es[j as int] == (entries@[j as int].0@, entries@[j as int].1@));
        match check_property(schema, &entries[j].0, &entries[j].1) {
            Some(e) => {
                return Some(e);
            },
            None => {},
        }
        j = j + 1;
    }
    None
}

/// Properties validated against a schema: required fields first, then
/// each property.
fn validate_against_schema(schema: &Schema, properties: &Properties) -> (r: Result<(), ValidationError>)
    ensures
        verdict_view(r) == insert_verdict(schema@, properties.entries_spec()),
{
    let ghost es = properties.entries_spec();
    let ghost sv = schema@;
    let mut i: usize = 0;
    while i < schema.fields.len()
        invariant
            es == properties.entries_spec(),
            sv == schema@,
            i <= schema.fields.len(),
            required_error(sv, es, 0) == required_error(sv, es, i as int),
        decreases schema.fields.len() - i,
    {
        let field = &schema.fields[i];
        assert(sv.fields[i as int] == field@);
        if field.has_constraint(&Constraint::NotNull) || field.has_constraint(&Constraint::PrimaryKey) {
            if !properties.contains_key(field.name.as_str()) {
                if field.get_default().is_none() {
                    return Err(ValidationError::FieldRequired(field.name.clone()));
                }
            }
        }
        i = i + 1;
    }
    match check_properties(schema, properties) {
        Some(e) => Err(e),
        None => Ok(()),
    }
}

/// No two schemas are of the same collection.
pub open spec fn distinct_collections(ss: Seq<SchemaView>) -> bool {
    forall|a: int, b: int| 0 <= a < b < ss.len() ==> ss[a].collection != ss[b].collection
}

impl SchemaValidator {
    proof fn lemma_wf_distinct(&self)
        requires
            self.wf(),
        ensures
            distinct_collections(self.schemas_spec()),
    {
    }

    /// The registered schemas, by their views.
    pub closed spec fn schemas_spec(&self) -> Seq<SchemaView> {
        Seq::new(self.schemas@.len(), |i: int| self.schemas@[i]@)
    }

    /// No collection has two schemas.
    pub closed spec fn wf(&self) -> bool {
        forall|a: int, b: int|
            0 <= a < b < self.schemas@.len() ==> self.schemas@[a].collection@ != self.schemas@[b].collection@
    }

    pub fn new() -> (r: Self)
        ensures
            r.wf(),
            r.schemas_spec() == Seq::<SchemaView>::empty(),
    {
        let r = SchemaValidator { schemas: Vec::new() };
        assert(r.schemas_spec() =~= Seq::empty());
        r
    }

    /// Where the schema of `collection` stands.
    fn position(&self, collection: &str) -> (r: Option<usize>)
        ensures
            match r {
                Some(i) => schema_pos(self.schemas_spec(), collection@, 0) == Some(i as int),
                None => schema_pos(self.schemas_spec(), collection@, 0) is None,
            },
    {
        let ghost ss = self.schemas_spec();
        let mut i: usize = 0;
        while i < self.schemas.len()
            invariant
                ss == self.schemas_spec(),
                i <= self.schemas.len(),
                schema_pos(ss, collection@, 0) == schema_pos(ss, collection@, i as int),
            decreases self.schemas.len() - i,
        {
            if str_equal(self.schemas[i].collection.as_str(), collection) {
                assert(ss[i as int].collection == collection@);
                return Some(i);
            }
            i = i + 1;
        }
        None
    }

    /// Register a schema for its collection, replacing the one it had.
    pub fn register_schema(&mut self, schema: Schema)
        requires
            old(self).wf(),
        ensures
            final(self).wf(),
            distinct_collections(final(self).schemas_spec()),
            final(self).schemas_spec() == match schema_pos(old(self).schemas_spec(), schema@.collection, 0) {
                Some(i) => old(self).schemas_spec().update(i, schema@),
                None => old(self).schemas_spec().push(schema@),
            },
    {
        let ghost ss = self.schemas_spec();
        let ghost sv = schema@;
        proof {
            lemma_schema_pos(ss, sv.collection, 0);
        }
        match self.position(schema.collection.as_str()) {
            Some(i) => {
                let ghost before = self.schemas@;
                self.schemas.set(i, schema);
                assert(self.schemas_spec() =~= ss.update(i as int, sv));
                assert forall|a: int| 0 <= a < self.schemas@.len() implies #[trigger] self.schemas@[a].collection@
                    == before[a].collection@ by {
                    if a == i {
                        assert(ss[a].collection == before[a].collection@);
                    }
                }
            },
            None => {
                let ghost before = self.schemas@;
                self.schemas.push(schema);
                assert(self.schemas_spec() =~= ss.push(sv));
                assert forall|a: int| 0 <= a < before.len() implies #[trigger] before[a].collection@
                    != sv.collection by {
                    assert(ss[a].collection == before[a].collection@);
                }
            },
        }
        proof {
            self.lemma_wf_distinct();
        }
    }

    /// The schema of a collection.
    pub fn get_schema(&self, collection: &str) -> (r: Option<&Schema>)
        ensures
            match schema_of(self.schemas_spec(), collection@) {
                Some(s) => r matches Some(x) && x@ == s,
                None => r is None,
            },
    {
        proof {
            lemma_schema_pos(self.schemas_spec(), collection@, 0);
        }
        match self.position(collection) {
            Some(i) => Some(&self.schemas[i]),
            None => None,
        }
    }

    /// Remove the schema of a collection (make it schema-less), returning it.
    pub fn drop_schema(&mut self, collection: &str) -> (r: Option<Schema>)
        requires
            old(self).wf(),
        ensures
            final(self).wf(),
            distinct_collections(final(self).schemas_spec()),
            match schema_pos(old(self).schemas_spec(), collection@, 0) {
                Some(i) => r matches Some(x) && x@ == old(self).schemas_spec()[i]
                    && final(self).schemas_spec() == old(self).schemas_spec().remove(i),
                None => r is None && final(self).schemas_spec() == old(self).schemas_spec(),
            },
    {
        let ghost ss = self.schemas_spec();
        proof {
            lemma_schema_pos(ss, collection@, 0);
        }
        match self.position(collection) {
            Some(i) => {
                let ghost before = self.schemas@;
                let removed = self.schemas.remove(i);
                assert(self.schemas_spec() =~= ss.remove(i as int));
                assert forall|a: int, b: int| 0 <= a < b < self.schemas@.len() implies self.schemas@[a].collection@
                    != self.schemas@[b].collection@ by {
                    let a0 = if a < i { a } else { a + 1 };
                    let b0 = if b < i { b } else { b + 1 };
                    assert(self.schemas@[a] == before[a0]);
                    assert(self.schemas@[b] == before[b0]);
                }
                proof {
                    self.lemma_wf_distinct();
                }
                Some(removed)
            },
            None => {
                proof {
                    self.lemma_wf_distinct();
                }
                None
            },
        }
    }

    /// Whether a collection has a schema.
    pub fn has_schema(&self, collection: &str) -> (r: bool)
        ensures
            r == schema_of(self.schemas_spec(), collection@) is Some,
    {
        self.position(collection).is_some()
    }

    /// Validate an insert's properties against the collection's schema;
    /// anything goes without one.
    pub fn validate_insert(&self, collection: &str, properties: &Properties) -> (r: Result<(), ValidationError>)
        ensures
            verdict_view(r) == match schema_of(self.schemas_spec(), collection@) {
                Some(s) => insert_verdict(s, properties.entries_spec()),
                None => Ok(()),
            },
    {
        match self.get_schema(collection) {
            Some(schema) => validate_against_schema(schema, properties),
            None => Ok(()),
        }
    }

    /// Validate an update's properties against the collection's schema
    /// (required fields are not asked for); anything goes without one.
    pub fn validate_update(&self, collection: &str, updates: &Properties) -> (r: Result<(), ValidationError>)
        ensures
            verdict_view(r) == match schema_of(self.schemas_spec(), collection@) {
                Some(s) => update_verdict(s, updates.entries_spec()),
                None => Ok(()),
            },
    {
        match self.get_schema(collection) {
            Some(schema) => match check_properties(schema, updates) {
                Some(e) => Err(e),
                None => Ok(()),
            },
            None => Ok(()),
        }
    }

    /// Add the default value of each field of the collection's schema that
    /// the properties lack.
    pub fn apply_defaults(&self, collection: &str, properties: &mut Properties)
        requires
            old(properties).wf(),
        ensures
            final(properties).wf(),
            final(properties).entries_spec() == match schema_of(self.schemas_spec(), collection@) {
                Some(s) => with_defaults(old(properties).entries_spec(), s.fields, s.fields.len() as int),
                None => old(properties).entries_spec(),
            },
    {
        if let Some(schema) = self.get_schema(collection) {
            let ghost es0 = properties.entries_spec();
            let ghost sv = schema@;
            let mut i: usize = 0;
            while i < schema.fields.len()
                invariant
                    sv == schema@,
                    properties.wf(),
                    i <= schema.fields.len(),
                    properties.entries_spec() == with_defaults(es0, sv.fields, i as int),
                decreases schema.fields.len() - i,
            {
                let field = &schema.fields[i];
                assert(sv.fields[i as int] == field@);
                if !properties.contains_key(field.name.as_str()) {
                    if let Some(default) = field.get_default() {
                        properties.insert(field.name.clone(), copy_value(default));
                    }
                }
                i = i + 1;
            }
        }
    }
}

impl Default for SchemaValidator {
    fn default() -> (r: Self)
        ensures
            r.wf(),
            r.schemas_spec() == Seq::<SchemaView>::empty(),
    {
        Self::new()
    }
}

/// Where a collection's schema stands, it stands there and nowhere before.
proof fn lemma_schema_pos(ss: Seq<SchemaView>, c: Seq<char>, i: int)
    requires
        0 <= i <= ss.len(),
    ensures
        match schema_pos(ss, c, i) {
            Some(j) => i <= j < ss.len() && ss[j].collection == c && forall|m: int| i <= m < j ==> ss[m].collection != c,
            None => forall|m: int| i <= m < ss.len() ==> ss[m].collection != c,
        },
    decreases ss.len() - i,
{
    if i < ss.len() && ss[i].collection != c {
        lemma_schema_pos(ss, c, i + 1);
    }
}

// ---------------------------------------------------------------------
// Laws
// ---------------------------------------------------------------------

/// With no two schemas of one collection, the schema of `c` is the one at
/// any position holding `c`.
proof fn lemma_schema_at(ss: Seq<SchemaView>, c: Seq<char>, j: int)
    requires
        distinct_collections(ss),
        0 <= j < ss.len(),
        ss[j].collection == c,
    ensures
        schema_pos(ss, c, 0) == Some(j),
{
    lemma_schema_pos(ss, c, 0);
}

/// Registering a schema makes it the schema of its collection and leaves
/// every other collection's schema as it was.
pub proof fn law_register_then_lookup(ss: Seq<SchemaView>, s: SchemaView, k: Seq<char>)
    requires
        distinct_collections(ss),
    ensures
        ({
            let after = match schema_pos(ss, s.collection, 0) {
                Some(i) => ss.update(i, s),
                None => ss.push(s),
            };
            &&& schema_of(after, s.collection) == Some(s)
            &&& k != s.collection ==> schema_of(after, k) == schema_of(ss, k)
        }),
{
    lemma_schema_pos(ss, s.collection, 0);
    lemma_schema_pos(ss, k, 0);
    let after = match schema_pos(ss, s.collection, 0) {
        Some(i) => ss.update(i, s),
        None => ss.push(s),
    };
    assert(distinct_collections(after)) by {
        assert forall|a: int, b: int| 0 <= a < b < after.len() implies after[a].collection != after[b].collection by {
            match schema_pos(ss, s.collection, 0) {
                Some(i) => {
                    if a == i {
                        assert(ss[a].collection == s.collection);
                    }
                    if b == i {
                        assert(ss[b].collection == s.collection);
                    }
                },
                None => {},
            }
        }
    }
    let pos = match schema_pos(ss, s.collection, 0) {
        Some(i) => i,
        None => ss.len() as int,
    };
    lemma_schema_at(after, s.collection, pos);
    if k != s.collection {
        lemma_schema_pos(after, k, 0);
        match schema_pos(ss, k, 0) {
            Some(j) => {
                assert(after[j] == ss[j]);
                lemma_schema_at(after, k, j);
            },
            None => {
                assert forall|m: int| 0 <= m < after.len() implies after[m].collection != k by {
                    if m != pos {
                        assert(after[m] == ss[m]);
                    }
                }
                match schema_pos(after, k, 0) {
                    Some(j) => {
                        assert(after[j].collection == k);
                    },
                    None => {},
                }
            },
        }
    }
}

/// Dropping the schema of `c` leaves `c` schema-less and every other
/// collection's schema as it was.
pub proof fn law_drop_forgets(ss: Seq<SchemaView>, c: Seq<char>, k: Seq<char>)
    requires
        distinct_collections(ss),
    ensures
        ({
            let after = match schema_pos(ss, c, 0) {
                Some(i) => ss.remove(i),
                None => ss,
            };
            &&& schema_of(after, c) is None
            &&& k != c ==> schema_of(after, k) == schema_of(ss, k)
        }),
{
    lemma_schema_pos(ss, c, 0);
    lemma_schema_pos(ss, k, 0);
    match schema_pos(ss, c, 0) {
        Some(i) => {
            let after = ss.remove(i);
            assert forall|m: int| 0 <= m < after.len() implies after[m].collection != c by {
                let m0 = if m < i { m } else { m + 1 };
                assert(after[m] == ss[m0]);
            }
            lemma_schema_pos(after, c, 0);
            match schema_pos(after, c, 0) {
                Some(j) => {
                    assert(after[j].collection == c);
                },
                None => {},
            }
            if k != c {
                assert(distinct_collections(after)) by {
                    assert forall|a: int, b: int| 0 <= a < b < after.len() implies after[a].collection
                        != after[b].collection by {
                        let a0 = if a < i { a } else { a + 1 };
                        let b0 = if b < i { b } else { b + 1 };
                        assert(after[a] == ss[a0]);
                        assert(after[b] == ss[b0]);
                    }
                }
                lemma_schema_pos(after, k, 0);
                match schema_pos(ss, k, 0) {
                    Some(j) => {
                        let j2 = if j < i { j } else { j - 1 };
                        assert(j != i);
                        assert(after[j2] == ss[j]);
                        lemma_schema_at(after, k, j2);
                    },
                    None => {
                        match schema_pos(after, k, 0) {
                            Some(j) => {
                                let j0 = if j < i { j } else { j + 1 };
                                assert(after[j] == ss[j0]);
                            },
                            None => {},
                        }
                    },
                }
            }
        },
        None => {},
    }
}

/// Defaults only add: the given properties stay as they were, in front,
/// and each added entry is a field's default under a name not given.
pub proof fn law_defaults_only_add(es: Seq<(Seq<char>, ValueView)>, fields: Seq<FieldView>, n: int)
    requires
        0 <= n <= fields.len(),
    ensures
        with_defaults(es, fields, n).len() >= es.len(),
        with_defaults(es, fields, n).subrange(0, es.len() as int) == es,
        forall|j: int|
            es.len() <= j < with_defaults(es, fields, n).len() ==> entry_pos(es, #[trigger] with_defaults(
                es,
                fields,
                n,
            )[j].0, 0) is None,
    decreases n,
{
    if n > 0 {
        law_defaults_only_add(es, fields, n - 1);
        let prev = with_defaults(es, fields, n - 1);
        let f = fields[n - 1];
        if entry_pos(prev, f.name, 0) is None && default_from(f.constraints, 0) is Some {
            let cur = prev.push((f.name, default_from(f.constraints, 0)->0));
            assert(cur.subrange(0, es.len() as int) =~= prev.subrange(0, es.len() as int));
            lemma_entry_pos(prev, f.name, 0);
            lemma_entry_pos(es, f.name, 0);
            assert forall|j: int| es.len() <= j < cur.len() implies entry_pos(es, #[trigger] cur[j].0, 0) is None by {
                if j < prev.len() {
                    assert(cur[j] == prev[j]);
                } else {
                    match entry_pos(es, f.name, 0) {
                        Some(m) => {
                            assert(prev[m] == es[m]);
                        },
                        None => {},
                    }
                }
            }
        }
    } else {
        assert(es.subrange(0, es.len() as int) =~= es);
    }
}

/// Each field type accepts values of its own kind and null, and nothing
/// else, but for the one coercion: an integer in a float field. A string
/// field takes strings, an integer field integers, a boolean field
/// booleans, a bytes field bytes; a float field floats and integers; a
/// timestamp, JSON or array field only null.
pub proof fn law_field_types_accept_their_own_kind(v: ValueView, inner: FieldType)
    ensures
        type_matches(FieldType::String, v) <==> (v is String || v is Null),
        type_matches(FieldType::Integer, v) <==> (v is Int || v is Null),
        type_matches(FieldType::Float, v) <==> (v is Float || v is Int || v is Null),
        type_matches(FieldType::Boolean, v) <==> (v is Bool || v is Null),
        type_matches(FieldType::Bytes, v) <==> (v is Bytes || v is Null),
        type_matches(FieldType::Timestamp, v) <==> v is Null,
        type_matches(FieldType::Json, v) <==> v is Null,
        type_matches(FieldType::Array(Box::new(inner)), v) <==> v is Null,
{
}

/// A non-null value of another kind than its declared field's type (other
/// than an integer for a float field) is refused with a type mismatch that
/// names the field, the field's type and the value's kind.
pub proof fn law_wrong_kind_is_a_type_mismatch(s: SchemaView, name: Seq<char>, v: ValueView)
    requires
        field_pos(s.fields, name, 0) is Some,
        !(v is Null),
        value_type_name(v) != field_type_name(s.fields[field_pos(s.fields, name, 0)->Some_0].field_type),
        !(s.fields[field_pos(s.fields, name, 0)->Some_0].field_type is Float && v is Int),
    ensures
        property_error(s, name, v) == Some(
            ErrorView::TypeMismatch {
                field: name,
                expected: field_type_name(s.fields[field_pos(s.fields, name, 0)->Some_0].field_type),
                got: value_type_name(v),
            },
        ),
{
}

/// Type mismatches name types and value kinds by their own names.
pub proof fn law_type_names(inner: FieldType, v: ValueView)
    ensures
        field_type_name(FieldType::String) == "String"@,
        field_type_name(FieldType::Integer) == "Integer"@,
        field_type_name(FieldType::Float) == "Float"@,
        field_type_name(FieldType::Boolean) == "Boolean"@,
        field_type_name(FieldType::Timestamp) == "Timestamp"@,
        field_type_name(FieldType::Bytes) == "Bytes"@,
        field_type_name(FieldType::Json) == "Json"@,
        field_type_name(FieldType::Array(Box::new(inner))) == "Array<"@ + field_type_name(inner) + ">"@,
        v is Null ==> value_type_name(v) == "Null"@,
        v is Bool ==> value_type_name(v) == "Boolean"@,
        v is Int ==> value_type_name(v) == "Integer"@,
        v is Float ==> value_type_name(v) == "Float"@,
        v is String ==> value_type_name(v) == "String"@,
        v is Bytes ==> value_type_name(v) == "Bytes"@,
{
}

} // verus!


