use deed::schema::{Constraint, Field, FieldType, Schema, SchemaValidator, ValidationError};
use deed::types::{Properties, PropertyValue};

#[test]
fn test_schema_creation() {
    let mut schema = Schema::new("Users".to_string());

    let id_field = Field::new("id".to_string(), FieldType::Integer).with_constraint(Constraint::PrimaryKey);

    let name_field = Field::new("name".to_string(), FieldType::String).with_constraint(Constraint::NotNull);

    let age_field = Field::new("age".to_string(), FieldType::Integer).with_check("age >= 18 AND age <= 120".to_string());

    schema.add_field(id_field);
    schema.add_field(name_field);
    schema.add_field(age_field);

    assert_eq!(schema.fields.len(), 3);
    assert!(schema.has_constraint("id", &Constraint::PrimaryKey));
    assert!(schema.has_constraint("name", &Constraint::NotNull));
}

#[test]
fn test_field_type_matching() {
    assert!(FieldType::String.matches(&PropertyValue::String("test".to_string())));
    assert!(FieldType::Integer.matches(&PropertyValue::Int(42)));
    assert!(FieldType::Float.matches(&PropertyValue::Float(3.14f64.to_bits())));
    assert!(FieldType::Boolean.matches(&PropertyValue::Bool(true)));

    // Float accepts int (coercion)
    assert!(FieldType::Float.matches(&PropertyValue::Int(42)));

    // Null matches any type (unless NOT NULL)
    assert!(FieldType::String.matches(&PropertyValue::Null));
}

#[test]
fn test_schema_validator() {
    let mut validator = SchemaValidator::new();

    let mut schema = Schema::new("Users".to_string());
    schema.add_field(Field::new("name".to_string(), FieldType::String).with_constraint(Constraint::NotNull));
    schema.add_field(Field::new("age".to_string(), FieldType::Integer));

    validator.register_schema(schema);

    // Valid insert
    let mut props = Properties::new();
    props.insert("name".to_string(), PropertyValue::String("Alice".to_string()));
    props.insert("age".to_string(), PropertyValue::Int(28));

    assert!(validator.validate_insert("Users", &props).is_ok());

    // Missing required field
    let mut bad_props = Properties::new();
    bad_props.insert("age".to_string(), PropertyValue::Int(28));

    assert!(validator.validate_insert("Users", &bad_props).is_err());
}

#[test]
fn test_default_values() {
    let mut validator = SchemaValidator::new();

    let mut schema = Schema::new("Products".to_string());
    schema.add_field(Field::new("name".to_string(), FieldType::String).with_constraint(Constraint::NotNull));
    schema.add_field(
        Field::new("stock".to_string(), FieldType::Integer).with_constraint(Constraint::Default(PropertyValue::Int(0))),
    );

    validator.register_schema(schema);

    let mut props = Properties::new();
    props.insert("name".to_string(), PropertyValue::String("Laptop".to_string()));

    // Apply defaults
    validator.apply_defaults("Products", &mut props);

    // Stock should now have default value
    assert_eq!(props.get("stock"), Some(&PropertyValue::Int(0)));
}

fn users_validator() -> SchemaValidator {
    let mut validator = SchemaValidator::new();
    let mut schema = Schema::new("Users".to_string());
    schema.add_field(Field::new("id".to_string(), FieldType::Integer).with_constraint(Constraint::PrimaryKey));
    schema.add_field(Field::new("name".to_string(), FieldType::String).with_constraint(Constraint::NotNull));
    schema.add_field(Field::new("age".to_string(), FieldType::Integer).with_check("age >= 18 AND age <= 120".to_string()));
    schema.add_field(Field::new("tags".to_string(), FieldType::Array(Box::new(FieldType::String))));
    validator.register_schema(schema);
    validator
}

fn props(entries: Vec<(&str, PropertyValue)>) -> Properties {
    let mut p = Properties::new();
    for (k, v) in entries {
        p.insert(k.to_string(), v);
    }
    p
}

#[test]
fn each_validation_error_and_its_message() {
    let validator = users_validator();
    let name = || ("name", PropertyValue::String("Ann".to_string()));

    let err = validator.validate_insert("Users", &props(vec![name()])).unwrap_err();
    assert!(matches!(&err, ValidationError::FieldRequired(f) if f == "id"));
    assert_eq!(err.message(), "Field 'id' is required");

    let err = validator
        .validate_insert("Users", &props(vec![("id", PropertyValue::String("x".to_string())), name()]))
        .unwrap_err();
    assert_eq!(err.message(), "Type mismatch for 'id': expected Integer, got String");

    let err = validator
        .validate_insert("Users", &props(vec![("id", PropertyValue::Int(1)), ("name", PropertyValue::Null)]))
        .unwrap_err();
    assert_eq!(err.message(), "Field 'name' is required");

    let err = validator
        .validate_insert("Users", &props(vec![("id", PropertyValue::Int(1)), name(), ("age", PropertyValue::Int(-3))]))
        .unwrap_err();
    assert_eq!(err.message(), "CHECK constraint failed for 'age': age >= 18 AND age <= 120");

    let err = validator
        .validate_insert("Users", &props(vec![("id", PropertyValue::Int(1)), name(), ("x", PropertyValue::Bool(true))]))
        .unwrap_err();
    assert!(matches!(&err, ValidationError::UnknownField(f) if f == "x"));
    assert_eq!(err.message(), "Unknown field 'x' (schema doesn't allow extra properties)");

    let err = validator
        .validate_insert("Users", &props(vec![("id", PropertyValue::Int(1)), name(), ("tags", PropertyValue::Int(2))]))
        .unwrap_err();
    assert_eq!(err.message(), "Type mismatch for 'tags': expected Array<String>, got Integer");

    assert_eq!(ValidationError::UniqueViolation("id".to_string()).message(), "UNIQUE constraint violation on 'id'");

    // Without a schema anything goes; an update does not ask for required fields.
    assert!(validator.validate_insert("Orders", &props(vec![("x", PropertyValue::Null)])).is_ok());
    assert!(validator.validate_update("Users", &props(vec![("age", PropertyValue::Int(40))])).is_ok());
    assert!(validator.validate_update("Users", &props(vec![("name", PropertyValue::Null)])).is_err());
}

#[test]
fn register_replace_and_drop_schemas() {
    let mut validator = users_validator();
    assert!(validator.has_schema("Users"));
    let mut loose = Schema::new("Users".to_string());
    loose.allow_extra_properties = true;
    validator.register_schema(loose);
    assert_eq!(validator.get_schema("Users").unwrap().fields.len(), 0);
    assert!(validator.validate_insert("Users", &props(vec![("anything", PropertyValue::Int(1))])).is_ok());
    let dropped = validator.drop_schema("Users").unwrap();
    assert!(dropped.allow_extra_properties);
    assert!(!validator.has_schema("Users"));
    assert!(validator.drop_schema("Users").is_none());
}

#[test]
fn indexes_and_defaults_of_fields() {
    let mut schema = Schema::new("T".to_string());
    schema.add_field(
        Field::new("a".to_string(), FieldType::Integer)
            .with_constraint(Constraint::Unique)
            .with_constraint(Constraint::Index),
    );
    schema.add_field(Field::new("b".to_string(), FieldType::Json));
    assert_eq!(schema.indexes, vec!["a".to_string(), "a".to_string()]);
    let f = Field::new("c".to_string(), FieldType::Timestamp)
        .with_constraint(Constraint::Default(PropertyValue::Int(5)))
        .with_constraint(Constraint::Default(PropertyValue::Int(6)));
    assert_eq!(f.get_default(), Some(&PropertyValue::Int(5)));
    assert!(f.has_constraint(&Constraint::Default(PropertyValue::Int(6))));
    assert!(!f.has_constraint(&Constraint::NotNull));
    assert_eq!(FieldType::Array(Box::new(FieldType::Array(Box::new(FieldType::Bytes)))).name(), "Array<Array<Bytes>>");

    let mut p = props(vec![("x", PropertyValue::Int(1)), ("y", PropertyValue::Int(2))]);
    p.insert("x".to_string(), PropertyValue::Int(3));
    assert_eq!(p.len(), 2);
    assert_eq!(p.get("x"), Some(&PropertyValue::Int(3)));
    assert_eq!(p.entries()[0].0, "x");
    assert!(p.contains_key("y"));
    assert!(!p.contains_key("z"));
}
