use hel::eval::eval_value;
use hel::{
    evaluate, evaluate_script, evaluate_with_resolver, parse_expression, parse_script,
    validate_expression, AstNode, Comparator, EvalContext, FactsEvalContext, HelResolver, Value,
};

fn num(x: f64) -> Value {
    Value::Number(x.to_bits())
}

#[test]
fn test_resolver_number_and_list_behavior() {
    struct CustomResolver;
    impl HelResolver for CustomResolver {
        fn resolve_attr(&self, object: &str, field: &str) -> Option<Value> {
            if object == "enrichment" && field == "confidence" {
                Some(num(0.85))
            } else if object == "tags" && field == "values" {
                Some(Value::List(vec![
                    Value::String("security".into()),
                    Value::String("critical".into()),
                ]))
            } else {
                None
            }
        }
    }

    let resolver = CustomResolver;
    let cond1 = "enrichment.confidence > 0.7";
    let res1 = evaluate_with_resolver(cond1, &resolver).expect("evaluation failed");
    assert!(res1);

    let cond2 = r#"tags.values CONTAINS "critical""#;
    let res2 = evaluate_with_resolver(cond2, &resolver).expect("evaluation failed");
    assert!(res2);
}

#[test]
fn test_nan_comparison_behavior() {
    struct NaNResolver;
    impl HelResolver for NaNResolver {
        fn resolve_attr(&self, object: &str, field: &str) -> Option<Value> {
            if object == "test" && field == "nan" {
                Some(num(f64::NAN))
            } else {
                None
            }
        }
    }

    let resolver = NaNResolver;
    let cond = "test.nan > 0.0";
    let res = evaluate_with_resolver(cond, &resolver).expect("evaluation failed");
    assert!(!res, "NaN comparison should be false");
}

#[test]
fn test_validate_expression_success() {
    let expr = r#"binary.arch == "x86_64" AND security.nx == false"#;
    assert!(validate_expression(expr).is_ok());
}

#[test]
fn test_validate_expression_failure() {
    // Use an expression with genuinely invalid syntax
    let bad_expr = "(";
    let result = validate_expression(bad_expr);
    assert!(result.is_err());

    if let Err(e) = result {
        assert!(e.line.is_some());
        assert!(e.column.is_some());
    }
}

#[test]
fn test_parse_expression_success() {
    let expr = r#"binary.format == "elf""#;
    let ast = parse_expression(expr).expect("parse failed");

    match &ast {
        AstNode::Comparison { op, .. } => {
            assert_eq!(*op, Comparator::Eq);
        }
        _ => {
            // It's okay if it's wrapped in other nodes, as long as it parsed
        }
    }
}

#[test]
fn test_facts_eval_context() {
    let mut ctx = FactsEvalContext::new();
    ctx.add_fact("binary.arch", Value::String("x86_64".into()));
    ctx.add_fact("security.nx", Value::Bool(false));

    // Test resolver interface
    assert_eq!(
        ctx.resolve_attr("binary", "arch"),
        Some(Value::String("x86_64".into()))
    );
    assert_eq!(ctx.resolve_attr("security", "nx"), Some(Value::Bool(false)));
}

#[test]
fn test_evaluate_with_facts_context() {
    let mut ctx = FactsEvalContext::new();
    ctx.add_fact("binary.arch", "x86_64".into());
    ctx.add_fact("security.nx", false.into());

    let expr = r#"binary.arch == "x86_64" AND security.nx == false"#;
    let result = evaluate(expr, &ctx).expect("evaluation failed");
    assert!(result);
}

#[test]
fn test_evaluate_with_facts_context_false() {
    let mut ctx = FactsEvalContext::new();
    ctx.add_fact("binary.arch", "arm".into());
    ctx.add_fact("security.nx", true.into());

    let expr = r#"binary.arch == "x86_64" AND security.nx == false"#;
    let result = evaluate(expr, &ctx).expect("evaluation failed");
    assert!(!result);
}

#[test]
fn test_parse_script_simple() {
    let script = r#"
            let has_perms = manifest.permissions CONTAINS "READ_SMS"
            has_perms AND binary.entropy > 7.5
        "#;

    let parsed = parse_script(script).expect("parse failed");
    assert_eq!(parsed.bindings.len(), 1);
    assert_eq!(parsed.bindings[0].0.as_str(), "has_perms");
}

#[test]
fn test_parse_script_with_comments() {
    let script = r#"
            # This is a comment
            let has_perms = manifest.permissions CONTAINS "READ_SMS"
            
            # Another comment
            has_perms AND binary.entropy > 7.5
        "#;

    let parsed = parse_script(script).expect("parse failed");
    assert_eq!(parsed.bindings.len(), 1);
}

#[test]
fn test_parse_script_multiple_bindings() {
    let script = r#"
            let has_sms_perms = manifest.permissions CONTAINS "READ_SMS"
            let has_obfuscation = binary.entropy > 7.5
            has_sms_perms AND has_obfuscation
        "#;

    let parsed = parse_script(script).expect("parse failed");
    assert_eq!(parsed.bindings.len(), 2);
    assert_eq!(parsed.bindings[0].0.as_str(), "has_sms_perms");
    assert_eq!(parsed.bindings[1].0.as_str(), "has_obfuscation");
}

#[test]
fn test_evaluate_script_simple() {
    let mut ctx = FactsEvalContext::new();
    ctx.add_fact(
        "manifest.permissions",
        Value::List(vec![
            Value::String("READ_SMS".into()),
            Value::String("SEND_SMS".into()),
        ]),
    );
    ctx.add_fact("binary.entropy", num(8.0));

    let script = r#"
            let has_sms_perms = manifest.permissions CONTAINS "READ_SMS"
            has_sms_perms AND binary.entropy > 7.5
        "#;

    let result = evaluate_script(script, &ctx).expect("evaluation failed");
    assert!(result);
}

#[test]
fn test_evaluate_script_with_multiple_bindings() {
    let mut ctx = FactsEvalContext::new();
    ctx.add_fact(
        "manifest.permissions",
        Value::List(vec![
            Value::String("READ_SMS".into()),
            Value::String("SEND_SMS".into()),
        ]),
    );
    ctx.add_fact("binary.entropy", num(8.0));
    ctx.add_fact("strings.count", num(5.0));

    let script = r#"
            let has_sms_perms = manifest.permissions CONTAINS "READ_SMS" AND manifest.permissions CONTAINS "SEND_SMS"
            let has_obfuscation = binary.entropy > 7.5 OR strings.count < 10
            has_sms_perms AND has_obfuscation
        "#;

    let result = evaluate_script(script, &ctx).expect("evaluation failed");
    assert!(result);
}

#[test]
fn test_value_from_conversions() {
    let v1: Value = "test".into();
    assert_eq!(v1, Value::String("test".into()));

    let v2: Value = true.into();
    assert_eq!(v2, Value::Bool(true));

    let v3: Value = Value::from_bits(42.5f64.to_bits());
    assert_eq!(v3, num(42.5));

    let v4: Value = 42i32.into();
    assert_eq!(v4, num(42.0));

    let v5: Value = (-7i32).into();
    assert_eq!(v5, num(-7.0));

    let v6: Value = 9007199254740993u64.into();
    assert_eq!(v6, num(9007199254740992.0));

    let v7: Value = String::from("owned").into();
    assert_eq!(v7, Value::String("owned".into()));

    let v8: Value = i32::MIN.into();
    assert_eq!(v8, num(-2147483648.0));
}

#[test]
fn test_eval_context_variables() {
    let ctx = FactsEvalContext::new();
    let mut eval_ctx = EvalContext::new(&ctx);

    // Add a variable
    eval_ctx = eval_ctx.with_variable("test_var".to_string(), Value::Bool(true));

    // Verify we can retrieve it
    let result = eval_ctx.get_variable("test_var");
    assert_eq!(result, Some(&Value::Bool(true)));
}

#[test]
fn test_script_let_binding_storage() {
    let ctx = FactsEvalContext::new();
    let mut eval_ctx = EvalContext::new(&ctx);

    // Simulate what happens in evaluate_script
    let name = "has_perms".to_string();
    let value = Value::Bool(true);

    eval_ctx = eval_ctx.with_variable(name.clone(), value);

    // Check if we can retrieve it
    let retrieved = eval_ctx.get_variable("has_perms");
    assert_eq!(retrieved, Some(&Value::Bool(true)));

    // Now check what happens when we evaluate an identifier
    let identifier = AstNode::Identifier("has_perms".to_string());
    let mut atoms = Vec::new();
    let result = eval_value(&identifier, &eval_ctx, false, &mut atoms).unwrap();
    assert_eq!(result, Value::Bool(true));
}
