//! The registry of built-ins, its core provider, and calls from rules.

use hel::{
    evaluate_with_context, Builtin, BuiltinFn, BuiltinsProvider, BuiltinsRegistry,
    CoreBuiltinsProvider, EvalError, HelResolver, Value,
};

fn num(x: f64) -> Value {
    Value::Number(x.to_bits())
}

fn find<'a>(builtins: &'a [(String, BuiltinFn)], name: &str) -> Option<&'a BuiltinFn> {
    builtins.iter().find(|(n, _)| n == name).map(|(_, f)| f)
}

// Empty resolver for tests that only use literals and function calls
struct EmptyResolver;
impl HelResolver for EmptyResolver {
    fn resolve_attr(&self, _object: &str, _field: &str) -> Option<Value> {
        None
    }
}

#[test]
fn test_core_len_builtin() {
    let provider = CoreBuiltinsProvider;
    let builtins = provider.get_builtins();

    let len_fn = find(&builtins, "len").expect("len function not found");

    // Test with list
    let result = len_fn.call(&[Value::List(vec![num(1.0), num(2.0)])]).expect("len failed");
    assert_eq!(result, num(2.0));

    // Test with string
    let result = len_fn.call(&[Value::String("hello".into())]).expect("len failed");
    assert_eq!(result, num(5.0));
}

#[test]
fn test_core_contains_builtin() {
    let provider = CoreBuiltinsProvider;
    let builtins = provider.get_builtins();

    let contains_fn = find(&builtins, "contains").expect("contains function not found");

    // Test list contains
    let list = Value::List(vec![Value::String("a".into()), Value::String("b".into())]);
    let result = contains_fn.call(&[list, Value::String("a".into())]).expect("contains failed");
    assert_eq!(result, Value::Bool(true));

    // Test string contains
    let result = contains_fn
        .call(&[Value::String("hello".into()), Value::String("ell".into())])
        .expect("contains failed");
    assert_eq!(result, Value::Bool(true));
}

#[test]
fn test_core_upper_lower() {
    let provider = CoreBuiltinsProvider;
    let builtins = provider.get_builtins();

    let upper_fn = find(&builtins, "upper").expect("upper not found");
    let lower_fn = find(&builtins, "lower").expect("lower not found");

    let result = upper_fn.call(&[Value::String("hello".into())]).expect("upper failed");
    assert_eq!(result, Value::String("HELLO".into()));

    let result = lower_fn.call(&[Value::String("WORLD".into())]).expect("lower failed");
    assert_eq!(result, Value::String("world".into()));
}

#[test]
fn test_builtins_registry() {
    let mut registry = BuiltinsRegistry::new();

    // Register core provider
    let provider = CoreBuiltinsProvider;
    registry.register(&provider).expect("registration failed");

    // Test function call
    let result = registry
        .call("core", "len", &[Value::List(vec![num(1.0)])])
        .expect("call failed");
    assert_eq!(result, num(1.0));

    // Test namespace listing
    let namespaces = registry.namespaces();
    assert_eq!(namespaces, vec!["core"]);

    // Test function listing
    let functions = registry.functions_in_namespace("core").expect("functions not found");
    assert!(functions.contains(&"len".to_string()));
    assert!(functions.contains(&"contains".to_string()));
}

struct TestAdd;

impl Builtin for TestAdd {
    fn call(&self, args: &[Value]) -> Result<Value, EvalError> {
        if args.len() != 2 {
            return Err(EvalError::InvalidOperation("test.add expects 2 arguments".to_string()));
        }

        match (&args[0], &args[1]) {
            (Value::Number(a), Value::Number(b)) => {
                Ok(num(f64::from_bits(*a) + f64::from_bits(*b)))
            }
            _ => Err(EvalError::TypeMismatch {
                expected: "Number".to_string(),
                got: "other".to_string(),
                context: "test.add".to_string(),
            }),
        }
    }
}

#[test]
fn test_custom_builtin_provider() {
    struct TestProvider;

    impl BuiltinsProvider for TestProvider {
        fn namespace(&self) -> String {
            "test".to_string()
        }

        fn get_builtins(&self) -> Vec<(String, BuiltinFn)> {
            let mut builtins: Vec<(String, BuiltinFn)> = Vec::new();

            // test.add(a, b)
            builtins.push(("add".to_string(), Box::new(TestAdd)));

            builtins
        }
    }

    let mut registry = BuiltinsRegistry::new();
    let provider = TestProvider;
    registry.register(&provider).expect("registration failed");

    let result = registry.call("test", "add", &[num(1.0), num(2.0)]).expect("call failed");
    assert_eq!(result, num(3.0));
}

#[test]
fn test_namespace_collision() {
    struct Provider1;
    impl BuiltinsProvider for Provider1 {
        fn namespace(&self) -> String {
            "test".to_string()
        }
        fn get_builtins(&self) -> Vec<(String, BuiltinFn)> {
            Vec::new()
        }
    }

    struct Provider2;
    impl BuiltinsProvider for Provider2 {
        fn namespace(&self) -> String {
            "test".to_string()
        }
        fn get_builtins(&self) -> Vec<(String, BuiltinFn)> {
            Vec::new()
        }
    }

    let mut registry = BuiltinsRegistry::new();
    let p1 = Provider1;
    let p2 = Provider2;

    registry.register(&p1).expect("first registration failed");
    let result = registry.register(&p2);
    assert!(result.is_err());
    assert!(result.unwrap_err().contains("already registered"));
}

#[test]
fn test_core_len_function_call() {
    let resolver = EmptyResolver;
    let mut registry = BuiltinsRegistry::new();
    let provider = CoreBuiltinsProvider;
    registry.register(&provider).expect("registration failed");

    // Test: core.len(["a", "b", "c"]) == 3
    let condition = r#"core.len(["a", "b", "c"]) == 3"#;
    let result = evaluate_with_context(condition, &resolver, &registry).expect("evaluation failed");
    assert!(result, "core.len should return 3 for list of 3 elements");
}

#[test]
fn test_core_contains_function_call() {
    let resolver = EmptyResolver;
    let mut registry = BuiltinsRegistry::new();
    let provider = CoreBuiltinsProvider;
    registry.register(&provider).expect("registration failed");

    // Test: core.contains(["a", "b", "c"], "b") == true
    let condition = r#"core.contains(["a", "b", "c"], "b") == true"#;
    let result = evaluate_with_context(condition, &resolver, &registry).expect("evaluation failed");
    assert!(result, "core.contains should find 'b' in list");

    // Test: core.contains(["a", "b", "c"], "d") == false
    let condition = r#"core.contains(["a", "b", "c"], "d") == false"#;
    let result = evaluate_with_context(condition, &resolver, &registry).expect("evaluation failed");
    assert!(result, "core.contains should not find 'd' in list");
}

#[test]
fn test_core_upper_lower_function_calls() {
    let resolver = EmptyResolver;
    let mut registry = BuiltinsRegistry::new();
    let provider = CoreBuiltinsProvider;
    registry.register(&provider).expect("registration failed");

    // Test: core.upper("hello") == "HELLO"
    let condition = r#"core.upper("hello") == "HELLO""#;
    let result = evaluate_with_context(condition, &resolver, &registry).expect("evaluation failed");
    assert!(result, "core.upper should convert to uppercase");

    // Test: core.lower("WORLD") == "world"
    let condition = r#"core.lower("WORLD") == "world""#;
    let result = evaluate_with_context(condition, &resolver, &registry).expect("evaluation failed");
    assert!(result, "core.lower should convert to lowercase");
}

struct IsDangerous;

impl Builtin for IsDangerous {
    fn call(&self, args: &[Value]) -> Result<Value, EvalError> {
        if args.len() != 1 {
            return Err(EvalError::InvalidOperation(
                "security.is_dangerous expects 1 argument".to_string(),
            ));
        }

        match &args[0] {
            Value::String(s) => {
                let is_dangerous = s.as_str() == "EXE" || s.as_str() == "DLL";
                Ok(Value::Bool(is_dangerous))
            }
            _ => Ok(Value::Bool(false)),
        }
    }
}

#[test]
fn test_custom_domain_builtin() {
    struct TestResolver;
    impl HelResolver for TestResolver {
        fn resolve_attr(&self, object: &str, field: &str) -> Option<Value> {
            if object == "binary" && field == "format" {
                Some(Value::String("ELF".into()))
            } else {
                None
            }
        }
    }

    // Custom built-in provider for security domain
    struct SecurityBuiltinsProvider;
    impl BuiltinsProvider for SecurityBuiltinsProvider {
        fn namespace(&self) -> String {
            "security".to_string()
        }

        fn get_builtins(&self) -> Vec<(String, BuiltinFn)> {
            let mut builtins: Vec<(String, BuiltinFn)> = Vec::new();

            // security.is_dangerous(format)
            builtins.push(("is_dangerous".to_string(), Box::new(IsDangerous)));

            builtins
        }
    }

    let resolver = TestResolver;
    let mut registry = BuiltinsRegistry::new();
    let core = CoreBuiltinsProvider;
    let security = SecurityBuiltinsProvider;
    registry.register(&core).expect("core registration failed");
    registry.register(&security).expect("security registration failed");

    // Test: security.is_dangerous(binary.format) == false (ELF is not dangerous)
    let condition = r#"security.is_dangerous(binary.format) == false"#;
    let result = evaluate_with_context(condition, &resolver, &registry).expect("evaluation failed");
    assert!(result, "ELF format should not be marked as dangerous");

    // Test: security.is_dangerous("EXE") == true
    let condition = r#"security.is_dangerous("EXE") == true"#;
    let result = evaluate_with_context(condition, &resolver, &registry).expect("evaluation failed");
    assert!(result, "EXE format should be marked as dangerous");
}

#[test]
fn test_function_call_in_complex_expression() {
    let resolver = EmptyResolver;
    let mut registry = BuiltinsRegistry::new();
    let provider = CoreBuiltinsProvider;
    registry.register(&provider).expect("registration failed");

    // First test each part individually
    let cond1 = r#"core.len(["a", "b"]) == 2"#;
    let res1 = evaluate_with_context(cond1, &resolver, &registry).expect("eval failed");
    println!("Part 1: {} => {}", cond1, res1);
    assert!(res1, "Part 1 should be true");

    let cond2 = r#"core.contains(["x", "y", "z"], "y") == true"#;
    let res2 = evaluate_with_context(cond2, &resolver, &registry).expect("eval failed");
    println!("Part 2: {} => {}", cond2, res2);
    assert!(res2, "Part 2 should be true");

    // Test complex expression with multiple function calls and operators
    let condition = r#"core.len(["a", "b"]) == 2 AND core.contains(["x", "y", "z"], "y") == true"#;
    let result = evaluate_with_context(condition, &resolver, &registry);
    if let Err(e) = &result {
        println!("Evaluation error: {}", e.message());
    }
    let result = result.expect("evaluation failed");
    println!("Combined: {} => {}", condition, result);
    assert!(result, "Complex expression with multiple function calls should work");

    // Test with OR
    let condition = r#"core.len(["a"]) == 5 OR core.upper("test") == "TEST""#;
    let result = evaluate_with_context(condition, &resolver, &registry).expect("evaluation failed");
    assert!(result, "OR expression should work with function calls");
}
