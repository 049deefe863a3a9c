use hel::schema::{parse_schema, FieldType};

#[test]
fn test_parse_simple_schema() {
    let schema_text = r#"
type Lead {
    vertical: String
    score: Number
}
		"#;

    let schema = parse_schema(schema_text).expect("parse failed");
    assert_eq!(schema.types.len(), 1);

    let lead_type = schema.get_type("Lead").expect("Lead type not found");
    assert_eq!(lead_type.fields.len(), 2);
    assert_eq!(lead_type.fields[0].name.as_str(), "vertical");
    assert_eq!(lead_type.fields[1].name.as_str(), "score");
}

#[test]
fn test_parse_schema_with_lists() {
    let schema_text = r#"
type Contact {
    email: String
}

type Lead {
    contacts: List<Contact>
}
		"#;

    let schema = parse_schema(schema_text).expect("parse failed");
    assert_eq!(schema.types.len(), 2);

    let lead_type = schema.get_type("Lead").expect("Lead type not found");
    assert_eq!(lead_type.fields.len(), 1);

    match &lead_type.fields[0].field_type {
        FieldType::List(inner) => match inner.as_ref() {
            FieldType::TypeRef(name) => assert_eq!(name.as_str(), "Contact"),
            _ => panic!("Expected TypeRef"),
        },
        _ => panic!("Expected List type"),
    }
}

#[test]
fn test_parse_schema_with_optional() {
    let schema_text = r#"
type Lead {
    email: String
    phone?: String
}
		"#;

    let schema = parse_schema(schema_text).expect("parse failed");
    let lead_type = schema.get_type("Lead").expect("Lead type not found");

    assert!(!lead_type.fields[0].optional);
    assert!(lead_type.fields[1].optional);
}

#[test]
fn test_schema_validation() {
    let schema_text = r#"
type Lead {
    contact: UnknownType
}
		"#;

    let result = parse_schema(schema_text);
    assert!(result.is_err());
    assert!(result.unwrap_err().contains("Undefined type reference"));
}

#[test]
fn test_parse_desmond_schema() {
    let schema_text = r#"
type Binary {
    format: String
    arch: String
    entry_point: Number
    file_size: Number
}

type Security {
    pie: String
    nx: String
}

type Import {
    symbol: String
    library?: String
}
"#;

    let schema = parse_schema(schema_text).expect("Failed to parse Desmond schema");
    assert!(schema.get_type("Binary").is_some());
    assert!(schema.get_type("Security").is_some());
    assert!(schema.get_type("Import").is_some());

    let import_type = schema.get_type("Import").unwrap();
    assert_eq!(import_type.fields.len(), 2);
    assert!(import_type.fields[1].optional); // library is optional
}

#[test]
fn test_parse_fidelis_schema() {
    let schema_text = r#"
type Lead {
    vertical: String
    score: Number
    contacts: List<Contact>
}

type Contact {
    email: String
    name: String
    title?: String
}

type Enrichment {
    confidence: Number
    data: Map<String>
}
"#;

    let schema = parse_schema(schema_text).expect("Failed to parse Fidelis schema");
    assert!(schema.get_type("Lead").is_some());
    assert!(schema.get_type("Contact").is_some());
    assert!(schema.get_type("Enrichment").is_some());

    let lead_type = schema.get_type("Lead").unwrap();
    match &lead_type.fields[2].field_type {
        FieldType::List(inner) => match inner.as_ref() {
            FieldType::TypeRef(name) => assert_eq!(name.as_str(), "Contact"),
            _ => panic!("Expected TypeRef"),
        },
        _ => panic!("Expected List type"),
    }
}
