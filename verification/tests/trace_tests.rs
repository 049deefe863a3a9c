use hel::{evaluate_with_trace, AtomTrace, Comparator, EvalTrace, HelResolver, Value};

struct TestResolver;

impl HelResolver for TestResolver {
    fn resolve_attr(&self, object: &str, field: &str) -> Option<Value> {
        match (object, field) {
            ("binary", "format") => Some(Value::String("elf".into())),
            ("security", "nx_enabled") => Some(Value::Bool(true)),
            _ => None,
        }
    }
}

#[test]
fn trace_test_evaluate_with_trace_simple() {
    let resolver = TestResolver;
    let condition = r#"binary.format == "elf""#;

    let trace = evaluate_with_trace(condition, &resolver, None).expect("evaluation failed");

    assert!(trace.result, "Condition should evaluate to true");
    assert_eq!(trace.atoms.len(), 1, "Should have one atom");
    assert_eq!(trace.atoms[0].left, "binary.format");
    assert_eq!(trace.atoms[0].right, "\"elf\"");
    assert_eq!(trace.atoms[0].resolved_left_value, Some("elf".to_string()));
    assert_eq!(trace.atoms[0].resolved_right_value, Some("elf".to_string()));
    assert!(trace.atoms[0].atom_result);
}

#[test]
fn lib_test_evaluate_with_trace_simple() {
    let resolver = TestResolver;
    let condition = r#"binary.format == "elf""#;

    let trace = evaluate_with_trace(condition, &resolver, None).expect("evaluation failed");

    assert!(trace.result, "Condition should evaluate to true");
    assert_eq!(trace.atoms.len(), 1, "Should have one atom");
    assert_eq!(trace.atoms[0].left, "binary.format");
    assert_eq!(trace.atoms[0].right, "\"elf\"");
    assert_eq!(trace.atoms[0].resolved_left_value, Some("elf".to_string()));
    assert_eq!(trace.atoms[0].resolved_right_value, Some("elf".to_string()));
    assert!(trace.atoms[0].atom_result);
}

#[test]
fn test_evaluate_with_trace_and() {
    let resolver = TestResolver;
    let condition = r#"binary.format == "elf" AND security.nx_enabled == true"#;

    let trace = evaluate_with_trace(condition, &resolver, None).expect("evaluation failed");

    assert!(trace.result, "Condition should evaluate to true");
    assert_eq!(trace.atoms.len(), 2, "Should have two atoms");
    assert!(trace.atoms[0].atom_result);
    assert!(trace.atoms[1].atom_result);
}

#[test]
fn test_evaluate_with_trace_false_result() {
    let resolver = TestResolver;
    let condition = r#"binary.format == "pe""#;

    let trace = evaluate_with_trace(condition, &resolver, None).expect("evaluation failed");

    assert!(!trace.result, "Condition should evaluate to false");
    assert_eq!(trace.atoms.len(), 1, "Should have one atom");
    assert_eq!(trace.atoms[0].resolved_left_value, Some("elf".to_string()));
    assert_eq!(trace.atoms[0].resolved_right_value, Some("pe".to_string()));
    assert!(!trace.atoms[0].atom_result);
}

#[test]
fn test_trace_facts_used() {
    let resolver = TestResolver;
    let condition = r#"binary.format == "elf" AND security.nx_enabled == true"#;

    let trace = evaluate_with_trace(condition, &resolver, None).expect("evaluation failed");

    let facts_used = trace.facts_used();
    assert!(facts_used.contains(&"binary.format".to_string()));
    assert!(facts_used.contains(&"security.nx_enabled".to_string()));

    // Should be sorted for determinism
    assert_eq!(facts_used[0], "binary.format");
    assert_eq!(facts_used[1], "security.nx_enabled");
}

#[test]
fn a_trace_can_be_built_by_hand() {
    let mut trace = EvalTrace::new();
    assert!(!trace.result);
    assert!(trace.atoms.is_empty());

    let atom = |left: &str, op: Comparator, right: &str, outcome: bool| AtomTrace {
        left: left.to_string(),
        op,
        right: right.to_string(),
        resolved_left_value: Some("x".to_string()),
        resolved_right_value: None,
        atom_result: outcome,
    };
    trace.add_atom(atom("zone.name", Comparator::Eq, "\"x\"", true));
    trace.add_atom(atom("plain", Comparator::In, "zone.list", false));
    trace.add_atom(atom("area.size", Comparator::Ge, "3", true));
    trace.add_atom(atom("zone.name", Comparator::Contains, "\"y\"", false));
    trace.set_result(true);

    assert!(trace.result);
    assert_eq!(trace.atoms.len(), 4);
    assert_eq!(trace.atoms[1].left, "plain");
    // Each dotted left side once, in ascending order; right sides do not count.
    assert_eq!(trace.facts_used(), vec!["area.size".to_string(), "zone.name".to_string()]);
    assert_eq!(
        trace.atoms[1].to_text(),
        "plain IN zone.list => left_resolved=Some(\"x\"), right_resolved=None, atom_result=false"
    );
    assert_eq!(
        trace.pretty_print(),
        "Result: true\n  \
         0: zone.name == \"x\" => left_resolved=Some(\"x\"), right_resolved=None, atom_result=true\n  \
         1: plain IN zone.list => left_resolved=Some(\"x\"), right_resolved=None, atom_result=false\n  \
         2: area.size >= 3 => left_resolved=Some(\"x\"), right_resolved=None, atom_result=true\n  \
         3: zone.name CONTAINS \"y\" => left_resolved=Some(\"x\"), right_resolved=None, atom_result=false\n\
         Facts used: [\"area.size\", \"zone.name\"]\n"
    );
    trace.set_result(false);
    assert!(!trace.result);
    assert_eq!(trace.atoms.len(), 4);
}
