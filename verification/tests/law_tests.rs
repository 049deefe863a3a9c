//! The laws of the library on chosen values, its scenarios, and the edges
//! of the language.

use hel::ast::{AstNode, Comparator};
use hel::builtins::{Builtin, BuiltinFn, BuiltinsProvider, BuiltinsRegistry, CoreBuiltinsProvider};
use hel::error::{ErrorKind, EvalError, HelError};
use hel::eval::{evaluate_with_context, evaluate_with_resolver, evaluate_with_trace, HelResolver};
use hel::parser::{parse_expression, parse_rule, validate_expression};
use hel::script::{evaluate, evaluate_script, parse_script, FactsEvalContext};
use hel::value::{compare_values, Value};

fn num(x: f64) -> Value {
    Value::Number(x.to_bits())
}

fn text(s: &str) -> Value {
    Value::String(s.to_string())
}

fn sample_values() -> Vec<Value> {
    vec![
        Value::Null,
        Value::Bool(true),
        Value::Bool(false),
        text(""),
        text("abc"),
        num(0.0),
        num(-0.0),
        num(1.5),
        num(-3.0),
        num(f64::INFINITY),
        num(f64::NEG_INFINITY),
        num(f64::NAN),
        Value::List(vec![]),
        Value::List(vec![num(1.0), text("a")]),
        Value::List(vec![num(f64::NAN)]),
        Value::Mapping(vec![]),
        Value::Mapping(vec![("a".to_string(), num(1.0)), ("b".to_string(), Value::Null)]),
        Value::Mapping(vec![("a".to_string(), Value::List(vec![num(f64::NAN)]))]),
    ]
}

fn holds_nan(v: &Value) -> bool {
    match v {
        Value::Number(bits) => f64::from_bits(*bits).is_nan(),
        Value::List(items) => items.iter().any(holds_nan),
        Value::Mapping(entries) => entries.iter().any(|(_, v)| holds_nan(v)),
        _ => false,
    }
}

#[test]
fn a_value_equals_itself_unless_it_holds_a_nan() {
    for v in sample_values() {
        assert_eq!(compare_values(&v, &v, Comparator::Eq), !holds_nan(&v), "{:?}", v);
        assert_eq!(
            compare_values(&v, &v, Comparator::Ne),
            !compare_values(&v, &v, Comparator::Eq),
            "{:?}",
            v
        );
    }
}

#[test]
fn ordering_holds_between_numbers_only() {
    let values = sample_values();
    for x in &values {
        for y in &values {
            let expected = match (x, y) {
                (Value::Number(a), Value::Number(b)) => {
                    let (a, b) = (f64::from_bits(*a), f64::from_bits(*b));
                    [a > b, a >= b, a < b, a <= b, a == b]
                }
                _ => [false, false, false, false, false],
            };
            assert_eq!(compare_values(x, y, Comparator::Gt), expected[0], "{:?} > {:?}", x, y);
            assert_eq!(compare_values(x, y, Comparator::Ge), expected[1], "{:?} >= {:?}", x, y);
            assert_eq!(compare_values(x, y, Comparator::Lt), expected[2], "{:?} < {:?}", x, y);
            assert_eq!(compare_values(x, y, Comparator::Le), expected[3], "{:?} <= {:?}", x, y);
            if let (Value::Number(_), Value::Number(_)) = (x, y) {
                assert_eq!(compare_values(x, y, Comparator::Eq), expected[4]);
            }
            assert_eq!(
                compare_values(x, y, Comparator::Ne),
                !compare_values(x, y, Comparator::Eq)
            );
        }
    }
}

#[test]
fn equality_is_by_kind_and_content() {
    assert!(compare_values(&Value::Null, &Value::Null, Comparator::Eq));
    assert!(!compare_values(&Value::Null, &Value::Bool(false), Comparator::Eq));
    assert!(!compare_values(&text("1"), &num(1.0), Comparator::Eq));
    assert!(!compare_values(&Value::Bool(true), &num(1.0), Comparator::Eq));
    assert!(compare_values(&num(0.0), &num(-0.0), Comparator::Eq));
    let list = Value::List(vec![num(1.0), text("a"), Value::List(vec![Value::Null])]);
    let same = Value::List(vec![num(1.0), text("a"), Value::List(vec![Value::Null])]);
    let shorter = Value::List(vec![num(1.0), text("a")]);
    let other = Value::List(vec![num(1.0), text("b"), Value::List(vec![Value::Null])]);
    assert!(compare_values(&list, &same, Comparator::Eq));
    assert!(!compare_values(&list, &shorter, Comparator::Eq));
    assert!(!compare_values(&list, &other, Comparator::Eq));
    let map = Value::Mapping(vec![("a".to_string(), num(1.0)), ("b".to_string(), text("x"))]);
    let same_map = Value::Mapping(vec![("a".to_string(), num(1.0)), ("b".to_string(), text("x"))]);
    let other_key = Value::Mapping(vec![("a".to_string(), num(1.0)), ("c".to_string(), text("x"))]);
    let other_value = Value::Mapping(vec![("a".to_string(), num(2.0)), ("b".to_string(), text("x"))]);
    assert!(compare_values(&map, &same_map, Comparator::Eq));
    assert!(!compare_values(&map, &other_key, Comparator::Eq));
    assert!(!compare_values(&map, &other_value, Comparator::Eq));
    assert!(!compare_values(&map, &list, Comparator::Eq));
}

#[test]
fn contains_and_in_follow_their_tables() {
    let list = Value::List(vec![text("security"), text("critical"), num(2.0)]);
    let map = Value::Mapping(vec![("key".to_string(), Value::Null)]);
    assert!(compare_values(&text("hello"), &text("ell"), Comparator::Contains));
    assert!(compare_values(&text("hello"), &text(""), Comparator::Contains));
    assert!(!compare_values(&text("hello"), &text("hello!"), Comparator::Contains));
    assert!(compare_values(&list, &text("critical"), Comparator::Contains));
    assert!(compare_values(&list, &num(2.0), Comparator::Contains));
    assert!(!compare_values(&list, &text("crit"), Comparator::Contains));
    assert!(compare_values(&map, &text("key"), Comparator::Contains));
    assert!(!compare_values(&map, &text("other"), Comparator::Contains));
    assert!(!compare_values(&map, &Value::Null, Comparator::Contains));
    assert!(!compare_values(&num(1.0), &num(1.0), Comparator::Contains));
    assert!(!compare_values(&text("a"), &list, Comparator::Contains));

    assert!(compare_values(&text("critical"), &list, Comparator::In));
    assert!(!compare_values(&text("none"), &list, Comparator::In));
    assert!(compare_values(&text("ell"), &text("hello"), Comparator::In));
    assert!(!compare_values(&text("hello"), &text("ell"), Comparator::In));
    assert!(!compare_values(&text("key"), &map, Comparator::In));
    assert!(!compare_values(&num(1.0), &num(1.0), Comparator::In));
}

struct Facts;

impl HelResolver for Facts {
    fn resolve_attr(&self, object: &str, field: &str) -> Option<Value> {
        match (object, field) {
            ("binary", "format") => Some(text("elf")),
            ("security", "nx_enabled") => Some(Value::Bool(true)),
            ("test", "nan") => Some(num(f64::NAN)),
            ("tags", "values") => Some(Value::List(vec![text("security"), text("critical")])),
            ("file", "size") => Some(num(2048.0)),
            ("meta", "labels") => Some(Value::Mapping(vec![
                ("env".to_string(), text("prod")),
                ("tier".to_string(), num(1.0)),
            ])),
            _ => None,
        }
    }
}

fn core_registry() -> BuiltinsRegistry {
    let mut registry = BuiltinsRegistry::new();
    registry.register(&CoreBuiltinsProvider).expect("registration failed");
    registry
}

#[test]
fn scenario_elf_with_nx() {
    let rule = r#"binary.format == "elf" AND security.nx_enabled == true"#;
    assert_eq!(evaluate_with_resolver(rule, &Facts), Ok(true));
    let trace = evaluate_with_trace(rule, &Facts, None).expect("trace");
    assert!(trace.result);
    assert_eq!(trace.atoms.len(), 2);
    assert!(trace.atoms[0].atom_result && trace.atoms[1].atom_result);
    assert_eq!(trace.facts_used(), vec!["binary.format", "security.nx_enabled"]);
    assert_eq!(
        trace.pretty_print(),
        "Result: true\n  0: binary.format == \"elf\" => left_resolved=Some(\"elf\"), right_resolved=Some(\"elf\"), atom_result=true\n  1: security.nx_enabled == true => left_resolved=Some(\"true\"), right_resolved=Some(\"true\"), atom_result=true\nFacts used: [\"binary.format\", \"security.nx_enabled\"]\n"
    );
    assert_eq!(
        trace.atoms[0].to_text(),
        "binary.format == \"elf\" => left_resolved=Some(\"elf\"), right_resolved=Some(\"elf\"), atom_result=true"
    );
}

#[test]
fn scenario_nan_compares_false() {
    assert_eq!(evaluate_with_resolver("test.nan > 0.0", &Facts), Ok(false));
    assert_eq!(evaluate_with_resolver("test.nan == test.nan", &Facts), Ok(false));
    assert_eq!(evaluate_with_resolver("test.nan != test.nan", &Facts), Ok(true));
    assert_eq!(evaluate_with_resolver("test.nan <= 0.0 OR test.nan >= 0.0", &Facts), Ok(false));
}

#[test]
fn scenario_core_len() {
    let registry = core_registry();
    assert_eq!(evaluate_with_context(r#"core.len(["a","b","c"]) == 3"#, &Facts, &registry), Ok(true));
    // The namespace defaults to `core`, and names are matched without case.
    assert_eq!(evaluate_with_context(r#"len(["a","b","c"]) == 3"#, &Facts, &registry), Ok(true));
    assert_eq!(evaluate_with_context(r#"CORE.Len("héllo") == 6"#, &Facts, &registry), Ok(true));
}

#[test]
fn scenario_core_upper_needs_a_registry() {
    let registry = core_registry();
    let rule = r#"core.upper("hello") == "HELLO""#;
    assert_eq!(evaluate_with_context(rule, &Facts, &registry), Ok(true));
    assert_eq!(
        evaluate_with_resolver(rule, &Facts),
        Err(EvalError::InvalidOperation(
            "Function calls not supported without built-ins registry: core.upper".to_string()
        ))
    );
    assert_eq!(
        evaluate_with_resolver(r#"upper("hello") == "HELLO""#, &Facts),
        Err(EvalError::InvalidOperation(
            "Function calls not supported without built-ins registry: core.upper".to_string()
        ))
    );
}

#[test]
fn scenario_script_with_binding() {
    let mut ctx = FactsEvalContext::new();
    ctx.add_fact("manifest.perms", Value::List(vec![text("READ_SMS"), text("SEND_SMS")]));
    ctx.add_fact("binary.entropy", num(8.0));
    let script = "let has = manifest.perms CONTAINS \"READ_SMS\"\nhas AND binary.entropy > 7.5";
    assert_eq!(evaluate_script(script, &ctx), Ok(true));
}

#[test]
fn scenario_in_list() {
    assert_eq!(evaluate_with_resolver(r#""critical" IN tags.values"#, &Facts), Ok(true));
    assert_eq!(evaluate_with_resolver(r#""minor" IN tags.values"#, &Facts), Ok(false));
    assert_eq!(evaluate_with_resolver(r#""env" IN meta.labels"#, &Facts), Ok(false));
    assert_eq!(evaluate_with_resolver(r#"meta.labels CONTAINS "env""#, &Facts), Ok(true));
}

#[test]
fn plain_and_traced_evaluation_agree() {
    let registry = core_registry();
    let rules = [
        "true",
        "false OR true",
        r#"binary.format == "elf""#,
        r#"binary.format == "pe" AND nothing.here == 1"#,
        r#"binary.format == "pe" OR file.size > 1000"#,
        r#"(binary.format == "elf") == true"#,
        r#"core.contains(tags.values, "critical")"#,
        r#"core.len(tags.values) > 1 AND (file.size >= 2048 OR missing.fact == 1)"#,
        "binary.format",
        "unbound",
        r#"core.len(1, 2) == 3"#,
        r#"nowhere.f(1) == 3"#,
        r#"core.upper(3) == "3""#,
        "file.size ==",
    ];
    for rule in rules {
        let plain = evaluate_with_context(rule, &Facts, &registry);
        let traced = evaluate_with_trace(rule, &Facts, Some(&registry));
        match (&plain, &traced) {
            (Ok(b), Ok(trace)) => assert_eq!(*b, trace.result, "rule {}", rule),
            (Err(e), Err(f)) => assert_eq!(e, f, "rule {}", rule),
            _ => panic!("rule {}: {:?} against {:?}", rule, plain, traced),
        }
    }
}

#[test]
fn traces_record_evaluated_comparisons_in_order() {
    let rule = r#"binary.format == "pe" AND security.nx_enabled == true"#;
    let trace = evaluate_with_trace(rule, &Facts, None).expect("trace");
    assert!(!trace.result);
    assert_eq!(trace.atoms.len(), 1, "the second comparison is not evaluated");
    assert_eq!(trace.facts_used(), vec!["binary.format"]);

    let rule = r#"file.size > 4096 OR zeta.fact == 1 OR alpha.fact != 2 OR zeta.fact == 1 OR plain == "plain" OR "x" == "y""#;
    let trace = evaluate_with_trace(rule, &Facts, None).expect("trace");
    assert!(trace.result);
    let lefts: Vec<&str> = trace.atoms.iter().map(|a| a.left.as_str()).collect();
    assert_eq!(lefts, vec!["file.size", "zeta.fact", "alpha.fact"]);
    assert_eq!(trace.atoms[0].resolved_left_value, Some("2048".to_string()));
    assert_eq!(trace.atoms[0].resolved_right_value, Some("4096".to_string()));
    assert_eq!(trace.atoms[1].resolved_left_value, Some("null".to_string()));
    assert_eq!(trace.atoms[0].op, Comparator::Gt);
    assert_eq!(trace.facts_used(), vec!["alpha.fact", "file.size", "zeta.fact"]);

    // Comparisons inside an operand are recorded before the one they feed.
    let rule = r#"(file.size > 1 AND file.size < 10) == false"#;
    let trace = evaluate_with_trace(rule, &Facts, None).expect("trace");
    assert!(trace.result);
    let rights: Vec<&str> = trace.atoms.iter().map(|a| a.right.as_str()).collect();
    assert_eq!(rights, vec!["1", "10", "false"]);
    assert_eq!(trace.atoms[2].left, "?");
    assert_eq!(trace.atoms[2].resolved_left_value, Some("false".to_string()));

    // Values and operands have their own texts.
    let registry = core_registry();
    let rule = r#"meta.labels != {"b": [1, 2.5, "x"], "a": true} AND core.upper("a") IN ["A"] AND other(1) == 0.10"#;
    let trace = evaluate_with_trace(rule, &Facts, Some(&registry));
    assert_eq!(
        trace,
        Err(EvalError::InvalidOperation("Unknown function: core.other".to_string()))
    );
    let rule = r#"meta.labels != {"b": [1, 2.5, "x"], "a": true} AND core.upper("a") IN ["A"] AND plain CONTAINS 0.10"#;
    let trace = evaluate_with_trace(rule, &Facts, Some(&registry)).expect("trace");
    assert_eq!(trace.atoms[0].left, "meta.labels");
    assert_eq!(trace.atoms[0].right, "{...}");
    assert_eq!(trace.atoms[0].resolved_left_value, Some("{env: prod, tier: 1}".to_string()));
    assert_eq!(trace.atoms[0].resolved_right_value, Some("{a: true, b: [1, 2.5, x]}".to_string()));
    assert_eq!(trace.atoms[1].left, "core.upper(...)");
    assert_eq!(trace.atoms[1].right, "[...]");
    assert_eq!(trace.atoms[1].resolved_right_value, Some("[A]".to_string()));
    assert_eq!(trace.atoms[2].left, "plain");
    assert_eq!(trace.atoms[2].right, "0.1");
    // Every left operand whose text holds a dot counts as a fact.
    assert_eq!(trace.facts_used(), vec!["core.upper(...)", "meta.labels"]);
    assert_eq!(
        trace.pretty_print(),
        "Result: false\n  0: meta.labels != {...} => left_resolved=Some(\"{env: prod, tier: 1}\"), right_resolved=Some(\"{a: true, b: [1, 2.5, x]}\"), atom_result=true\n  1: core.upper(...) IN [...] => left_resolved=Some(\"A\"), right_resolved=Some(\"[A]\"), atom_result=true\n  2: plain CONTAINS 0.1 => left_resolved=Some(\"plain\"), right_resolved=Some(\"0.1\"), atom_result=false\nFacts used: [\"core.upper(...)\", \"meta.labels\"]\n"
    );
}

#[test]
fn a_trace_without_facts_has_an_empty_facts_line() {
    let trace = evaluate_with_trace(r#""a\tb" == "c""#, &Facts, None).expect("trace");
    assert_eq!(
        trace.pretty_print(),
        "Result: false\n  0: \"a\\tb\" == \"c\" => left_resolved=Some(\"a\\\\tb\"), right_resolved=Some(\"c\"), atom_result=false\nFacts used: []\n"
    );
    let trace = evaluate_with_trace("true", &Facts, None).expect("trace");
    assert_eq!(trace.pretty_print(), "Result: true\nFacts used: []\n");
    assert_eq!(hel::EvalTrace::new().pretty_print(), "Result: false\nFacts used: []\n");
    assert!(trace.facts_used().is_empty());
}

#[test]
fn a_script_without_bindings_is_its_final_expression() {
    let mut ctx = FactsEvalContext::new();
    ctx.add_fact("a.b", num(3.0));
    ctx.add_fact("c.d", text("x"));
    let rules = [
        "a.b > 2",
        "a.b < 2 OR c.d == \"x\"",
        "c.d",
        "a.b == (",
        "core.len(c.d) == 1",
        "a.b > 2 AND\n   c.d == x",
    ];
    for rule in rules {
        let script = format!("# only the final expression\n\n{}\n", rule);
        let joined = rule.replace('\n', " ");
        let joined: Vec<&str> = joined.split_whitespace().collect();
        assert_eq!(evaluate_script(&script, &ctx), evaluate(&joined.join(" "), &ctx), "rule {}", rule);
    }
}

#[test]
fn a_binding_that_is_not_used_changes_nothing() {
    let mut ctx = FactsEvalContext::new();
    ctx.add_fact("a.b", num(3.0));
    let plain = "let big = a.b > 2\nbig AND a.b < 10";
    let with_unused = "let big = a.b > 2\nlet unused = [a.b, \"x\", {\"k\": a.b}]\nbig AND a.b < 10";
    assert_eq!(evaluate_script(plain, &ctx), Ok(true));
    assert_eq!(evaluate_script(with_unused, &ctx), Ok(true));
    // The binding may stand anywhere, and be bound again later.
    let first = "let unused = a.b\nlet big = a.b > 2\nbig AND a.b < 10";
    let twice = "let unused = 1\nlet big = a.b > 2\nlet unused = 2\nbig AND a.b < 10";
    assert_eq!(evaluate_script(first, &ctx), Ok(true));
    assert_eq!(evaluate_script(twice, &ctx), Ok(true));
    let plain_false = "let big = a.b > 5\nbig AND a.b < 10";
    let first_false = "let unused = a.b\nlet big = a.b > 5\nbig AND a.b < 10";
    assert_eq!(evaluate_script(plain_false, &ctx), Ok(false));
    assert_eq!(evaluate_script(first_false, &ctx), Ok(false));
    // A binding whose own evaluation fails makes the script fail, used or not.
    let failing = "let big = a.b > 2\nlet unused = core.len(a.b)\nbig AND a.b < 10";
    assert_eq!(
        evaluate_script(failing, &ctx).unwrap_err().kind,
        ErrorKind::EvaluationError
    );
    // A later binding of the same name replaces the earlier one.
    let rebound = "let x = false\nlet x = true\nx";
    assert_eq!(evaluate_script(rebound, &ctx), Ok(true));
}

#[test]
fn scripts_are_read_line_by_line() {
    let script = parse_script("let a = 1\n").unwrap_err();
    assert_eq!(script, HelError::parse_error("Script must have a final boolean expression".to_string()));
    assert!(parse_script("").is_err());
    assert!(parse_script("# nothing\n\n   \n").is_err());
    // A `let` line without `=` starts the final expression.
    assert!(parse_script("let x").is_err());
    assert_eq!(parse_script("let").unwrap().bindings.len(), 0);
    // The expression of a binding goes on while it is incomplete.
    let parsed = parse_script("let x =\n  a.b ==\n\n  # comment\n  1\nlet y = x\nx\nAND y").unwrap();
    assert_eq!(parsed.bindings.len(), 2);
    assert_eq!(parsed.bindings[0].0, "x");
    assert_eq!(parsed.bindings[0].1, parse_rule("a.b == 1"));
    assert_eq!(parsed.bindings[1].1, parse_rule("x"));
    assert_eq!(parsed.final_expr, parse_rule("x AND y"));
    // A complete expression is not continued: what follows is the final expression.
    let parsed = parse_script("let x = a.b == 1\nAND y\n").unwrap_err();
    assert_eq!(parsed.kind, ErrorKind::ParseError);
    // Errors of a binding carry the place in its own text.
    let error = parse_script("let x = (a.b == 1\nlet y = 2\ny").unwrap_err();
    assert_eq!(error, HelError::parse_error_at("expected `)`".to_string(), 1, 10));
    match parse_script("let x = a.b\r\nx == 1\r\n") {
        Ok(parsed) => assert_eq!(parsed.bindings[0].0, "x"),
        Err(e) => panic!("{:?}", e),
    }
}

struct Shout;

impl Builtin for Shout {
    fn call(&self, args: &[Value]) -> Result<Value, EvalError> {
        Ok(Value::Bool(!args.is_empty()))
    }
}

struct Mixed;

impl BuiltinsProvider for Mixed {
    fn namespace(&self) -> String {
        "AcMe".to_string()
    }

    fn get_builtins(&self) -> Vec<(String, BuiltinFn)> {
        let first: BuiltinFn = Box::new(Shout);
        let second: BuiltinFn = Box::new(Shout);
        vec![("shout".to_string(), first), ("again".to_string(), second)]
    }
}

struct Lower;

impl BuiltinsProvider for Lower {
    fn namespace(&self) -> String {
        "acme".to_string()
    }

    fn get_builtins(&self) -> Vec<(String, BuiltinFn)> {
        Vec::new()
    }
}

#[test]
fn the_registry_matches_names_without_case() {
    let mut registry = core_registry();
    registry.register(&Mixed).expect("registration failed");
    assert_eq!(
        registry.register(&Lower),
        Err("Namespace 'acme' is already registered".to_string())
    );
    assert_eq!(
        registry.register(&CoreBuiltinsProvider),
        Err("Namespace 'core' is already registered".to_string())
    );
    assert_eq!(registry.namespaces(), vec!["acme", "core"]);
    assert_eq!(
        registry.functions_in_namespace("ACME"),
        Some(vec!["again".to_string(), "shout".to_string()])
    );
    assert_eq!(
        registry.functions_in_namespace("Core"),
        Some(vec!["contains".to_string(), "len".to_string(), "lower".to_string(), "upper".to_string()])
    );
    assert_eq!(registry.functions_in_namespace("none"), None);
    assert!(registry.has_function("Acme", "SHOUT"));
    assert!(registry.has_function("core", "Upper"));
    assert!(!registry.has_function("core", "shout"));
    assert!(!registry.has_function("none", "len"));
    assert_eq!(registry.call("ACME", "Shout", &[Value::Null]), Ok(Value::Bool(true)));
    assert_eq!(registry.call("acme", "shout", &[]), Ok(Value::Bool(false)));
    assert_eq!(
        registry.call("Other", "Shout", &[]),
        Err(EvalError::InvalidOperation("Unknown namespace: other".to_string()))
    );
    assert_eq!(
        registry.call("Core", "Shout", &[]),
        Err(EvalError::InvalidOperation("Unknown function: core.shout".to_string()))
    );
    assert_eq!(BuiltinsRegistry::new().namespaces(), Vec::<String>::new());
}

#[test]
fn core_functions_check_their_arguments() {
    let registry = core_registry();
    let call = |name: &str, args: &[Value]| registry.call("core", name, args);
    assert_eq!(call("len", &[text("héllo")]), Ok(num(6.0)));
    assert_eq!(call("len", &[Value::List(vec![])]), Ok(num(0.0)));
    assert_eq!(
        call("len", &[]),
        Err(EvalError::InvalidOperation("core.len expects 1 argument".to_string()))
    );
    assert_eq!(
        call("len", &[num(1.0)]),
        Err(EvalError::TypeMismatch {
            expected: "List or String".to_string(),
            got: "Number(1.0)".to_string(),
            context: "core.len".to_string(),
        })
    );
    assert_eq!(
        call("contains", &[text("a")]),
        Err(EvalError::InvalidOperation("core.contains expects 2 arguments".to_string()))
    );
    assert_eq!(call("contains", &[text("abc"), num(1.0)]), Ok(Value::Bool(false)));
    assert_eq!(call("contains", &[text("abc"), text("bc")]), Ok(Value::Bool(true)));
    let nested = Value::List(vec![Value::List(vec![num(1.0)]), Value::Mapping(vec![])]);
    assert_eq!(call("contains", &[nested.clone(), Value::List(vec![num(1.0)])]), Ok(Value::Bool(true)));
    assert_eq!(call("contains", &[nested.clone(), Value::Mapping(vec![])]), Ok(Value::Bool(false)));
    assert_eq!(call("contains", &[Value::List(vec![num(f64::NAN)]), num(f64::NAN)]), Ok(Value::Bool(false)));
    assert_eq!(
        call("contains", &[Value::Null, Value::Null]),
        Err(EvalError::TypeMismatch {
            expected: "List or String".to_string(),
            got: "Null".to_string(),
            context: "core.contains".to_string(),
        })
    );
    assert_eq!(call("upper", &[text("straße")]), Ok(text("STRASSE")));
    assert_eq!(call("lower", &[text("ÀB")]), Ok(text("àb")));
    assert_eq!(
        call("upper", &[]),
        Err(EvalError::InvalidOperation("core.upper expects 1 argument".to_string()))
    );
    assert_eq!(
        call("lower", &[text("a"), text("b")]),
        Err(EvalError::InvalidOperation("core.lower expects 1 argument".to_string()))
    );
    assert_eq!(
        call("upper", &[Value::Bool(true)]),
        Err(EvalError::TypeMismatch {
            expected: "String".to_string(),
            got: "Bool(true)".to_string(),
            context: "core.upper".to_string(),
        })
    );
    assert_eq!(
        call("lower", &[Value::Mapping(vec![])]),
        Err(EvalError::TypeMismatch {
            expected: "String".to_string(),
            got: "Map({})".to_string(),
            context: "core.lower".to_string(),
        })
    );
}

fn ident(s: &str) -> AstNode {
    AstNode::Identifier(s.to_string())
}

fn attr(object: &str, field: &str) -> AstNode {
    AstNode::Attribute { object: object.to_string(), field: field.to_string() }
}

fn cmp(left: AstNode, op: Comparator, right: AstNode) -> AstNode {
    AstNode::Comparison { left: Box::new(left), op, right: Box::new(right) }
}

fn all(mut nodes: Vec<AstNode>) -> AstNode {
    if nodes.len() == 1 {
        nodes.remove(0)
    } else {
        AstNode::And(nodes)
    }
}

fn rule(and_groups: Vec<Vec<AstNode>>) -> AstNode {
    let mut groups: Vec<AstNode> = and_groups.into_iter().map(all).collect();
    if groups.len() == 1 {
        groups.remove(0)
    } else {
        AstNode::Or(groups)
    }
}

#[test]
fn the_parser_builds_the_tree_of_the_grammar() {
    assert_eq!(
        parse_expression(r#"binary.format == "elf""#),
        Ok(rule(vec![vec![cmp(attr("binary", "format"), Comparator::Eq, AstNode::String("elf".to_string()))]]))
    );
    assert_eq!(
        parse_expression("a AND b OR c"),
        Ok(rule(vec![vec![ident("a"), ident("b")], vec![ident("c")]]))
    );
    assert_eq!(
        parse_expression(" ( a OR b )AND\tc\n"),
        Ok(rule(vec![vec![rule(vec![vec![ident("a")], vec![ident("b")]]), ident("c")]]))
    );
    let operators = [
        ("==", Comparator::Eq),
        ("!=", Comparator::Ne),
        (">", Comparator::Gt),
        (">=", Comparator::Ge),
        ("<", Comparator::Lt),
        ("<=", Comparator::Le),
        ("CONTAINS", Comparator::Contains),
        ("IN", Comparator::In),
    ];
    for (text, op) in operators {
        assert_eq!(
            parse_expression(&format!("x {} 1", text)),
            Ok(rule(vec![vec![cmp(ident("x"), op, AstNode::Number(1))]]))
        );
    }
    assert_eq!(
        parse_expression("x>=0x1F"),
        Ok(rule(vec![vec![cmp(ident("x"), Comparator::Ge, AstNode::Number(31))]]))
    );
    assert_eq!(
        parse_expression("x == 18446744073709551615"),
        Ok(rule(vec![vec![cmp(ident("x"), Comparator::Eq, AstNode::Number(u64::MAX))]]))
    );
    assert_eq!(
        parse_expression("x == 0XfFfFfFfFfFfFfFfF"),
        Ok(rule(vec![vec![cmp(ident("x"), Comparator::Eq, AstNode::Number(u64::MAX))]]))
    );
    assert_eq!(
        parse_expression("7.50 < 1.0e3"),
        Ok(rule(vec![vec![cmp(
            AstNode::Float(7.5f64.to_bits()),
            Comparator::Lt,
            AstNode::Float(1000f64.to_bits())
        )]]))
    );
    assert_eq!(
        parse_expression("x == 2.5E-3"),
        Ok(rule(vec![vec![cmp(ident("x"), Comparator::Eq, AstNode::Float(0.0025f64.to_bits()))]]))
    );
    assert_eq!(
        parse_expression(r#"f() == ns.g(1, [true, "s"], {"k": a.b, "l": {}}, [])"#),
        Ok(rule(vec![vec![cmp(
            AstNode::FunctionCall { namespace: None, name: "f".to_string(), args: vec![] },
            Comparator::Eq,
            AstNode::FunctionCall {
                namespace: Some("ns".to_string()),
                name: "g".to_string(),
                args: vec![
                    AstNode::Number(1),
                    AstNode::ListLiteral(vec![AstNode::Bool(true), AstNode::String("s".to_string())]),
                    AstNode::MapLiteral(vec![
                        ("k".to_string(), attr("a", "b")),
                        ("l".to_string(), AstNode::MapLiteral(vec![])),
                    ]),
                    AstNode::ListLiteral(vec![]),
                ],
            }
        )]]))
    );
    assert_eq!(
        parse_expression(r#"name == "say \"hi\" \\""#),
        Ok(rule(vec![vec![cmp(
            ident("name"),
            Comparator::Eq,
            AstNode::String("say \\\"hi\\\" \\\\".to_string())
        )]]))
    );
    assert_eq!(parse_expression("trueish"), Ok(rule(vec![vec![ident("trueish")]])));
    assert_eq!(parse_expression("INSIDE"), Ok(rule(vec![vec![ident("INSIDE")]])));
    assert_eq!(parse_expression("false"), Ok(rule(vec![vec![AstNode::Bool(false)]])));
}

#[test]
fn syntax_errors_carry_their_place() {
    let cases = [
        ("", "expected a term", 1, 1),
        ("(", "expected a term", 1, 2),
        ("a ==", "expected a term", 1, 5),
        ("a AND", "expected a term", 1, 6),
        ("a ==\n  ]", "expected a term", 2, 3),
        ("\"open", "string is not closed", 1, 1),
        ("(a OR b", "expected `)`", 1, 8),
        ("[1, 2", "expected `,` or `]`", 1, 6),
        ("[1 2]", "expected `,` or `]`", 1, 4),
        ("[1,]", "expected a term", 1, 4),
        ("f(1", "expected `,` or `)`", 1, 4),
        ("{a: 1}", "expected a string key", 1, 2),
        ("{\"a\" 1}", "expected `:`", 1, 6),
        ("{\"a\": 1", "expected `,` or `}`", 1, 8),
        ("{\"a\": 1,}", "expected a string key", 1, 9),
        ("{\"a", "string is not closed", 1, 2),
        ("x == 0x", "malformed number", 1, 6),
        ("x == 18446744073709551616", "integer does not fit in 64 bits", 1, 6),
        ("x == 0x10000000000000000", "integer does not fit in 64 bits", 1, 6),
        ("a == 1 b", "unexpected input after the expression", 1, 8),
        ("a == 1 == 2", "unexpected input after the expression", 1, 8),
        ("a and b", "unexpected input after the expression", 1, 3),
        ("x == 1.", "unexpected input after the expression", 1, 7),
        ("x == 1.5e", "unexpected input after the expression", 1, 9),
        ("x == -1", "expected a term", 1, 6),
        ("a..b", "unexpected input after the expression", 1, 2),
        ("AND", "expected a term", 1, 1),
        ("x == IN", "expected a term", 1, 6),
        ("ok\n\n  AND §", "expected a term", 3, 7),
    ];
    for (text, message, line, column) in cases {
        let expected = HelError::parse_error_at(message.to_string(), line, column);
        assert_eq!(validate_expression(text), Err(expected.clone()), "text {:?}", text);
        assert_eq!(parse_expression(text), Err(expected), "text {:?}", text);
    }
    let error = validate_expression("(").unwrap_err();
    assert_eq!(error.to_text(), "HEL ParseError at line 1, column 2: expected a term");
    assert_eq!(
        evaluate_with_resolver("(", &Facts),
        Err(EvalError::ParseError("HEL ParseError at line 1, column 2: expected a term".to_string()))
    );
}

#[test]
fn evaluation_follows_the_walk_rules() {
    let registry = core_registry();
    let eval = |rule: &str| evaluate_with_context(rule, &Facts, &registry);
    // Short-circuiting hides the errors of what is skipped.
    assert_eq!(eval("false AND core.len(1) == 1"), Ok(false));
    assert_eq!(eval("true OR nowhere.f() == 1"), Ok(true));
    assert!(eval("true AND core.len(1) == 1").is_err());
    assert!(eval("core.len(1) == 1 OR true").is_err());
    // Identifiers fall back to their own name; attributes to null.
    assert_eq!(eval("binary.format == elf"), Ok(true));
    assert_eq!(eval("missing.fact == missing.other"), Ok(true));
    assert_eq!(eval(r#"missing.fact == "null""#), Ok(false));
    // Integers widen to numbers; hexadecimal and decimal agree.
    assert_eq!(eval("file.size == 2048 AND file.size == 0x800 AND file.size == 2048.0"), Ok(true));
    assert_eq!(eval("9007199254740993 == 9007199254740992"), Ok(true));
    // Lists and maps are compared by content; map entries are kept by key.
    assert_eq!(eval(r#"["a", 1, [true]] == ["a", 1.0, [true]]"#), Ok(true));
    assert_eq!(eval(r#"{"b": 1, "a": 2, "b": 3} == {"a": 2, "b": 3}"#), Ok(true));
    assert_eq!(eval(r#"{"a": 1} == {"a": 1, "b": 2}"#), Ok(false));
    assert_eq!(eval(r#"{"a": 1} CONTAINS "a" AND "tier" IN "frontier""#), Ok(true));
    // A logical node at a value position gives its truth value.
    assert_eq!(eval("(1 < 2) == true AND [(1 < 2 AND 2 < 1)] == [false]"), Ok(true));
    // Anything else at a boolean position must be a truth value.
    assert_eq!(eval(r#"core.contains("abc", "b")"#), Ok(true));
    for (rule, got) in [
        ("binary.format", "String(\"elf\")"),
        ("missing.fact", "Null"),
        ("file.size", "Number(2048.0)"),
        ("tags.values", "List([String(\"security\"), String(\"critical\")])"),
        ("meta.labels", "Map({\"env\": String(\"prod\"), \"tier\": Number(1.0)})"),
        ("42", "Number(42.0)"),
        ("0.00001", "Number(1e-5)"),
        ("12345678901234567890", "Number(1.2345678901234567e19)"),
        ("name", "String(\"name\")"),
    ] {
        assert_eq!(
            eval(rule),
            Err(EvalError::TypeMismatch {
                expected: "boolean".to_string(),
                got: got.to_string(),
                context: "boolean expression context".to_string(),
            }),
            "rule {}",
            rule
        );
    }
    let mut ctx = FactsEvalContext::new();
    ctx.add_fact("a.b", num(1.0));
    ctx.add_fact("a.b", num(2.0));
    ctx.add_fact("a.b.c", text("deep"));
    assert_eq!(evaluate("a.b == 2", &ctx), Ok(true));
    assert_eq!(ctx.resolve_attr("a", "b.c"), Some(text("deep")));
    assert_eq!(ctx.resolve_attr("a.b", "c"), Some(text("deep")));
    assert_eq!(ctx.resolve_attr("a", "c"), None);
    let error = evaluate("a.b", &ctx).unwrap_err();
    assert_eq!(error.kind, ErrorKind::TypeError);
    assert_eq!(error.message, "Type mismatch in boolean expression context: expected boolean, got Number(2.0)");
    assert_eq!(error.to_text(), "HEL TypeError: Type mismatch in boolean expression context: expected boolean, got Number(2.0)");
    let error = evaluate("f(1) == 1", &ctx).unwrap_err();
    assert_eq!(error.kind, ErrorKind::EvaluationError);
    assert_eq!(error.line, None);
    let error = evaluate("a.b ==", &ctx).unwrap_err();
    assert_eq!((error.kind, error.line, error.column), (ErrorKind::ParseError, Some(1), Some(7)));
    assert_eq!(FactsEvalContext::from_json("{\"a.b\": 1}").unwrap().facts.len(), 0);
}

#[test]
fn errors_have_their_texts() {
    let unknown = EvalError::UnknownAttribute { object: "a".to_string(), field: "b".to_string() };
    assert_eq!(unknown.message(), "Unknown attribute: a.b");
    let converted = HelError::from(unknown);
    assert_eq!(converted.kind, ErrorKind::UnknownAttribute);
    assert_eq!(converted.message, "Unknown attribute: a.b");
    assert_eq!(converted.to_text(), "HEL UnknownAttribute: Unknown attribute: a.b");
    assert_eq!(EvalError::InvalidOperation("x".to_string()).message(), "Invalid operation: x");
    assert_eq!(EvalError::ParseError("x".to_string()).message(), "Parse error: x");
    assert_eq!(HelError::from(EvalError::ParseError("x".to_string())), HelError::parse_error("x".to_string()));
    assert_eq!(HelError::from(EvalError::InvalidOperation("x".to_string())), HelError::eval_error("x".to_string()));
    assert_eq!(HelError::type_error("t".to_string()).to_text(), "HEL TypeError: t");
    assert_eq!(HelError::unknown_attribute("u".to_string()).kind, ErrorKind::UnknownAttribute);
    assert_eq!(
        HelError::parse_error_at("m".to_string(), 12, 3).to_text(),
        "HEL ParseError at line 12, column 3: m"
    );
}

#[test]
fn the_equality_operator_is_the_equality_of_the_language() {
    for a in sample_values() {
        for b in sample_values() {
            assert_eq!(a == b, compare_values(&a, &b, Comparator::Eq), "{:?} == {:?}", a, b);
            assert_eq!(a != b, compare_values(&a, &b, Comparator::Ne), "{:?} != {:?}", a, b);
        }
    }
    assert!(num(0.0) == num(-0.0));
    assert!(num(f64::NAN) != num(f64::NAN));
    assert!(Value::List(vec![num(f64::NAN)]) != Value::List(vec![num(f64::NAN)]));
    assert!(Value::List(vec![num(1.0), text("a")]) == Value::List(vec![num(1.0), text("a")]));
    assert!(
        Value::Mapping(vec![("k".to_string(), num(1.0))])
            == Value::Mapping(vec![("k".to_string(), num(1.0))])
    );
    assert!(
        Value::Mapping(vec![("k".to_string(), num(1.0))])
            != Value::Mapping(vec![("k".to_string(), num(2.0))])
    );
}

#[test]
fn validation_agrees_with_parsing() {
    let texts = [
        "",
        "   ",
        "true",
        "a.b == 1",
        "a.b == 1 AND (c.d != \"x\" OR e IN [1, 2.5, \"s\", {\"k\": f.g}])",
        "core.len([1, 2]) >= 2 AND upper(\"a\") CONTAINS name",
        "0x1F < 32 AND 1.5e-3 <= 2.0E+2",
        "a.b ==",
        "a.b == \"open",
        "(a.b == 1",
        "[1, 2",
        "[1 2]",
        "f(1 2)",
        "{\"k\" 1}",
        "{k: 1}",
        "{\"k\": 1",
        "{\"k",
        "0x",
        "99999999999999999999",
        "0xFFFFFFFFFFFFFFFFF",
        "a.b == 1 extra",
        "AND",
        "a.b == 1 AND",
        "a.b == 1 OR OR",
        "x IN",
        "\n\n  a.b ==\n  ?",
        "ns.f(",
        "ns.f(a, )",
    ];
    for text in texts {
        let parsed = parse_expression(text).map(|_| ());
        assert_eq!(validate_expression(text), parsed, "text {:?}", text);
    }
}

#[test]
fn a_schema_keeps_its_names_in_order_each_once() {
    let def = |name: &str| hel::TypeDef { name: name.to_string(), fields: vec![], description: None };
    let mut schema = hel::Schema::new();
    for name in ["m", "z", "a", "m", "b", "z"] {
        let before = schema.types.len();
        let held = schema.get_type(name).is_some();
        schema.add_type(def(name));
        assert_eq!(schema.types.len(), before + if held { 0 } else { 1 });
    }
    let names: Vec<&str> = schema.types.iter().map(|(name, _)| name.as_str()).collect();
    assert_eq!(names, vec!["a", "b", "m", "z"]);
    // A map literal gives a mapping with its keys in order, each once.
    let ctx = FactsEvalContext::new();
    assert_eq!(
        evaluate(r#"{"b": 1, "a": 2, "b": 3} == {"a": 2, "b": 3}"#, &ctx),
        Ok(true)
    );
}
