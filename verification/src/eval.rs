//! The evaluator: what a rule gives against the facts of a host.
//!
//! A run of a rule yields its verdict together with the atoms it makes:
//! one record for each comparison that is evaluated, in the order of
//! evaluation. Plain evaluation returns the verdict; traced evaluation
//! returns the atoms as well.

use crate::assoc::{assign, assigned, key_index, keys_of, lemma_lower_bound, place, placed, position};
use crate::ast::{entry_views, node_views, Ast, AstNode, Comparator};
use crate::builtins::{dispatch, slice_views, BuiltinsRegistry, RegistryModel};
use crate::error::{hel_error_text, EvalError, EvalErrorView};
use crate::number::{from_u64, widened};
use crate::parser::{parse_expression, parsed};
use crate::render::{
    debug_text, node_text, node_to_string, value_text, value_to_debug, value_to_string,
};
use crate::text::{push_str, string_of};
use crate::trace::{atom_views, AtomTrace, AtomView, EvalTrace, TraceView};
use crate::value::{compare, compare_values, option_view, value_views, Value, ValueView};
use vstd::prelude::*;

verus! {

/// The source of the facts of a host.
///
/// A resolver answers for an object and a field with the value of that
/// attribute, or with nothing if the host has no such fact. Its answers
/// depend on the object and the field alone, which is what `fact` states.
pub trait HelResolver {
    /// The fact that the host holds for the attribute. A resolver that
    /// does not say what its facts are leaves them undetermined.
    open spec fn fact(&self, object: Seq<char>, field: Seq<char>) -> Option<ValueView> {
        arbitrary()
    }

    /// Resolves an attribute to its value.
    fn resolve_attr(&self, object: &str, field: &str) -> (r: Option<Value>)
        ensures
            option_view(r) == self.fact(object@, field@),
    ;
}

/// What a rule is evaluated against.
pub struct Env {
    /// The facts of the host.
    pub facts: spec_fn(Seq<char>, Seq<char>) -> Option<ValueView>,
    /// The registry of built-in functions, if one is attached.
    pub builtins: Option<RegistryModel>,
    /// The variables, by name.
    pub variables: Seq<(Seq<char>, ValueView)>,
}

/// The names of the variables, in stored order.
pub open spec fn variable_names(variables: Seq<(Seq<char>, ValueView)>) -> Seq<Seq<char>> {
    Seq::new(variables.len(), |i: int| variables[i].0)
}

/// The outcome of a run: what it gives and the atoms it makes, or the
/// first error.
pub type Run<T> = Result<(T, Seq<AtomView>), EvalErrorView>;

/// The nodes that stand for a truth value by themselves.
pub open spec fn is_logical(n: Ast) -> bool {
    n is Comparison || n is And || n is Or
}

/// The atom of a comparison.
pub open spec fn atom_of(
    left: Ast,
    op: Comparator,
    right: Ast,
    lv: ValueView,
    rv: ValueView,
) -> AtomView {
    AtomView {
        left: node_text(left),
        op,
        right: node_text(right),
        resolved_left_value: Some(value_text(lv)),
        resolved_right_value: Some(value_text(rv)),
        atom_result: compare(lv, rv, op),
    }
}

/// The error for a value that is no truth value where one is needed.
pub open spec fn not_boolean(v: ValueView) -> EvalErrorView {
    EvalErrorView::TypeMismatch {
        expected: "boolean"@,
        got: debug_text(v),
        context: "boolean expression context"@,
    }
}

/// The namespace of a call: the one written, or `core`.
pub open spec fn call_namespace(namespace: Option<Seq<char>>) -> Seq<char> {
    match namespace {
        Some(ns) => ns,
        None => "core"@,
    }
}

/// The error for a call when no registry is attached.
pub open spec fn no_registry(namespace: Option<Seq<char>>, name: Seq<char>) -> EvalErrorView {
    EvalErrorView::InvalidOperation(
        "Function calls not supported without built-ins registry: "@ + call_namespace(namespace)
            + "."@ + name,
    )
}

/// A node at a boolean position. A truth value is itself; `And` stops at
/// its first false operand and `Or` at its first true one, so that what
/// follows is not evaluated; a comparison materialises both sides and
/// compares them; any other node must materialise to a truth value.
pub open spec fn run_bool(n: Ast, env: Env) -> Run<bool>
    decreases n, (if is_logical(n) {
            0int
        } else {
            1int
        }), 0int,
{
    match n {
        Ast::Bool(b) => Ok((b, Seq::empty())),
        Ast::And(nodes) => run_all(nodes, 0, env, Seq::empty()),
        Ast::Or(nodes) => run_any(nodes, 0, env, Seq::empty()),
        Ast::Comparison { left, op, right } => match run_value(*left, env) {
            Err(e) => Err(e),
            Ok((lv, la)) => match run_value(*right, env) {
                Err(e) => Err(e),
                Ok((rv, ra)) => Ok(
                    (compare(lv, rv, op), la + ra + seq![atom_of(*left, op, *right, lv, rv)]),
                ),
            },
        },
        _ => match run_value(n, env) {
            Err(e) => Err(e),
            Ok((v, atoms)) => match v {
                ValueView::Bool(b) => Ok((b, atoms)),
                _ => Err(not_boolean(v)),
            },
        },
    }
}

/// The operands of an `And` from position `from` on, after the atoms made
/// so far.
pub open spec fn run_all(nodes: Seq<Ast>, from: int, env: Env, atoms: Seq<AtomView>) -> Run<bool>
    decreases nodes, 0int, nodes.len() - from,
{
    if from < 0 || from >= nodes.len() {
        Ok((true, atoms))
    } else {
        match run_bool(nodes[from], env) {
            Err(e) => Err(e),
            Ok((b, made)) => if b {
                run_all(nodes, from + 1, env, atoms + made)
            } else {
                Ok((false, atoms + made))
            },
        }
    }
}

/// The operands of an `Or` from position `from` on, after the atoms made
/// so far.
pub open spec fn run_any(nodes: Seq<Ast>, from: int, env: Env, atoms: Seq<AtomView>) -> Run<bool>
    decreases nodes, 0int, nodes.len() - from,
{
    if from < 0 || from >= nodes.len() {
        Ok((false, atoms))
    } else {
        match run_bool(nodes[from], env) {
            Err(e) => Err(e),
            Ok((b, made)) => if b {
                Ok((true, atoms + made))
            } else {
                run_any(nodes, from + 1, env, atoms + made)
            },
        }
    }
}

/// The values of the nodes from position `from` on, after the values and
/// atoms made so far.
pub open spec fn run_items(
    nodes: Seq<Ast>,
    from: int,
    env: Env,
    values: Seq<ValueView>,
    atoms: Seq<AtomView>,
) -> Run<Seq<ValueView>>
    decreases nodes, 0int, nodes.len() - from,
{
    if from < 0 || from >= nodes.len() {
        Ok((values, atoms))
    } else {
        match run_value(nodes[from], env) {
            Err(e) => Err(e),
            Ok((v, made)) => run_items(nodes, from + 1, env, values.push(v), atoms + made),
        }
    }
}

/// The entries of a map literal from position `from` on: each value is
/// placed under its key, a later entry replacing an earlier one of the same
/// key.
pub open spec fn run_entries(
    entries: Seq<(Seq<char>, Ast)>,
    from: int,
    env: Env,
    made: Seq<(Seq<char>, ValueView)>,
    atoms: Seq<AtomView>,
) -> Run<Seq<(Seq<char>, ValueView)>>
    decreases entries, 0int, entries.len() - from,
{
    if from < 0 || from >= entries.len() {
        Ok((made, atoms))
    } else {
        match run_value(entries[from].1, env) {
            Err(e) => Err(e),
            Ok((v, a)) => run_entries(
                entries,
                from + 1,
                env,
                placed(made, variable_names(made), entries[from].0, (entries[from].0, v)),
                atoms + a,
            ),
        }
    }
}

/// A node at a value position. Literals are themselves, an integer
/// widened to a number; an identifier is the variable of that name or else
/// the string of its name; an attribute is the fact of the host, null if
/// there is none; lists and maps materialise their parts; a call
/// materialises its arguments and is dispatched through the registry; a
/// logical node gives its truth value.
pub open spec fn run_value(n: Ast, env: Env) -> Run<ValueView>
    decreases n, (if is_logical(n) {
            1int
        } else {
            0int
        }), 0int,
{
    match n {
        Ast::Bool(b) => Ok((ValueView::Bool(b), Seq::empty())),
        Ast::String(s) => Ok((ValueView::String(s), Seq::empty())),
        Ast::Number(v) => Ok((ValueView::Number(widened(v)), Seq::empty())),
        Ast::Float(f) => Ok((ValueView::Number(f), Seq::empty())),
        Ast::Identifier(name) => {
            let i = key_index(variable_names(env.variables), name, 0);
            if 0 <= i < env.variables.len() {
                Ok((env.variables[i].1, Seq::empty()))
            } else {
                Ok((ValueView::String(name), Seq::empty()))
            }
        },
        Ast::Attribute { object, field } => match (env.facts)(object, field) {
            Some(v) => Ok((v, Seq::empty())),
            None => Ok((ValueView::Null, Seq::empty())),
        },
        Ast::ListLiteral(nodes) => match run_items(nodes, 0, env, Seq::empty(), Seq::empty()) {
            Err(e) => Err(e),
            Ok((values, atoms)) => Ok((ValueView::List(values), atoms)),
        },
        Ast::MapLiteral(entries) => match run_entries(
            entries,
            0,
            env,
            Seq::empty(),
            Seq::empty(),
        ) {
            Err(e) => Err(e),
            Ok((made, atoms)) => Ok((ValueView::Mapping(made), atoms)),
        },
        Ast::FunctionCall { namespace, name, args } => match run_items(
            args,
            0,
            env,
            Seq::empty(),
            Seq::empty(),
        ) {
            Err(e) => Err(e),
            Ok((values, atoms)) => match env.builtins {
                None => Err(no_registry(namespace, name)),
                Some(model) => match dispatch(model, call_namespace(namespace), name, values) {
                    Err(e) => Err(e),
                    Ok(v) => Ok((v, atoms)),
                },
            },
        },
        _ => match run_bool(n, env) {
            Err(e) => Err(e),
            Ok((b, atoms)) => Ok((ValueView::Bool(b), atoms)),
        },
    }
}

/// What an evaluation works with: the resolver of the host, the registry
/// of built-ins if there is one, and the variables bound so far.
pub struct EvalContext<'a, R: HelResolver + ?Sized> {
    pub resolver: &'a R,
    pub builtins: Option<&'a BuiltinsRegistry>,
    pub variables: Vec<(String, Value)>,
}

/// The contents of stored variables.
pub open spec fn variable_views(variables: Seq<(String, Value)>) -> Seq<(Seq<char>, ValueView)> {
    Seq::new(variables.len(), |i: int| (variables[i].0@, variables[i].1@))
}

impl<'a, R: HelResolver + ?Sized> EvalContext<'a, R> {
    /// What the context stands for.
    pub open spec fn env(&self) -> Env {
        Env {
            facts: |object: Seq<char>, field: Seq<char>| self.resolver.fact(object, field),
            builtins: match self.builtins {
                Some(registry) => Some(registry@),
                None => None,
            },
            variables: variable_views(self.variables@),
        }
    }

    /// A context with a resolver, no registry and no variables.
    pub fn new(resolver: &'a R) -> (r: EvalContext<'a, R>)
        ensures
            r.resolver == resolver,
            r.builtins is None,
            r.variables@.len() == 0,
    {
        EvalContext { resolver, builtins: None, variables: Vec::new() }
    }

    /// A context with a resolver and a registry, and no variables.
    pub fn with_builtins(resolver: &'a R, builtins: &'a BuiltinsRegistry) -> (r: EvalContext<
        'a,
        R,
    >)
        ensures
            r.resolver == resolver,
            r.builtins == Some(builtins),
            r.variables@.len() == 0,
    {
        EvalContext { resolver, builtins: Some(builtins), variables: Vec::new() }
    }

    /// The context with one more variable; a variable of the same name is
    /// replaced.
    pub fn with_variable(self, name: String, value: Value) -> (r: EvalContext<'a, R>)
        ensures
            r.resolver == self.resolver,
            r.builtins == self.builtins,
            variable_views(r.variables@) == assigned(
                variable_views(self.variables@),
                variable_names(variable_views(self.variables@)),
                name@,
                (name@, value@),
            ),
    {
        let mut variables = self.variables;
        let ghost before = variables@;
        assert(keys_of(before) =~= variable_names(variable_views(before)));
        proof {
            crate::assoc::lemma_key_index(keys_of(before), name@, 0);
        }
        assign(&mut variables, name, value);
        assert(variable_views(variables@) =~= assigned(
            variable_views(before),
            variable_names(variable_views(before)),
            name@,
            (name@, value@),
        ));
        EvalContext { resolver: self.resolver, builtins: self.builtins, variables }
    }

    /// The value of a variable, if it is bound.
    pub fn get_variable(&self, name: &str) -> (r: Option<&Value>)
        ensures
            match r {
                Some(v) => {
                    let i = key_index(variable_names(self.env().variables), name@, 0);
                    0 <= i < self.env().variables.len() && self.env().variables[i].1 == v@
                },
                None => key_index(variable_names(self.env().variables), name@, 0)
                    >= self.env().variables.len(),
            },
    {
        assert(keys_of(self.variables@) =~= variable_names(variable_views(self.variables@)));
        match position(&self.variables, name) {
            Some(i) => Some(&self.variables[i].1),
            None => None,
        }
    }
}

/// Whether a result is the verdict of the run, or its error. If `record`
/// is set, the atoms of the run are added to `after`.
pub open spec fn ran<T>(
    verdict_matches: bool,
    run_atoms: Seq<AtomView>,
    record: bool,
    before: Seq<AtomTrace>,
    after: Seq<AtomTrace>,
) -> bool {
    verdict_matches && atom_views(after) == atom_views(before) + (if record {
        run_atoms
    } else {
        Seq::empty()
    })
}

/// Whether an evaluation at a boolean position did what the run says.
pub open spec fn bool_ran(
    r: Result<bool, EvalError>,
    run: Run<bool>,
    record: bool,
    before: Seq<AtomTrace>,
    after: Seq<AtomTrace>,
) -> bool {
    match (r, run) {
        (Ok(b), Ok((verdict, atoms))) => ran::<bool>(b == verdict, atoms, record, before, after),
        (Err(e), Err(v)) => e@ == v,
        _ => false,
    }
}

/// Whether an evaluation at a value position did what the run says.
pub open spec fn value_ran(
    r: Result<Value, EvalError>,
    run: Run<ValueView>,
    record: bool,
    before: Seq<AtomTrace>,
    after: Seq<AtomTrace>,
) -> bool {
    match (r, run) {
        (Ok(v), Ok((value, atoms))) => ran::<bool>(v@ == value, atoms, record, before, after),
        (Err(e), Err(v)) => e@ == v,
        _ => false,
    }
}

/// Executable form of [`not_boolean`].
fn not_boolean_error(v: &Value) -> (r: EvalError)
    ensures
        r@ == not_boolean(v@),
{
    EvalError::TypeMismatch {
        expected: "boolean".to_owned(),
        got: value_to_debug(v),
        context: "boolean expression context".to_owned(),
    }
}

/// Executable form of [`no_registry`].
fn no_registry_error(namespace: &Option<String>, name: &str) -> (r: EvalError)
    ensures
        r@ == no_registry(
            match *namespace {
                Some(ns) => Some(ns@),
                None => None,
            },
            name@,
        ),
{
    let mut out: Vec<char> = Vec::new();
    push_str(&mut out, "Function calls not supported without built-ins registry: ");
    match namespace {
        Some(ns) => push_str(&mut out, ns.as_str()),
        None => push_str(&mut out, "core"),
    }
    push_str(&mut out, ".");
    push_str(&mut out, name);
    let ghost ns_view = crate::schema::text_opt(*namespace);
    assert(out@ =~="Function calls not supported without built-ins registry: "@ + call_namespace(
        ns_view,
    ) + "."@ + name@);
    EvalError::InvalidOperation(string_of(&out))
}

/// Evaluates a node at a boolean position, recording its atoms if asked.
pub fn eval_bool<R: HelResolver + ?Sized>(
    node: &AstNode,
    ctx: &EvalContext<R>,
    record: bool,
    atoms: &mut Vec<AtomTrace>,
) -> (r: Result<bool, EvalError>)
    ensures
        bool_ran(r, run_bool(node@, ctx.env()), record, old(atoms)@, final(atoms)@),
    decreases node, (if is_logical(node@) {
            0int
        } else {
            1int
        }), 0int,
{
    match node {
        AstNode::Bool(b) => {
            assert(atom_views(atoms@) + Seq::<AtomView>::empty() =~= atom_views(atoms@));
            Ok(*b)
        },
        AstNode::And(nodes) => {
            let ghost views = node_views(*nodes);
            let ghost env = ctx.env();
            let ghost mut made: Seq<AtomView> = Seq::empty();
            let mut i: usize = 0;
            assert(decreases_to!(node => nodes));
            assert(atom_views(atoms@) + Seq::<AtomView>::empty() =~= atom_views(atoms@));
            while i < nodes.len()
                invariant
                    decreases_to!(node => nodes),
                    i <= nodes.len(),
                    views == node_views(*nodes),
                    env == ctx.env(),
                    run_bool(node@, env) == run_all(views, i as int, env, made),
                    atom_views(atoms@) == atom_views(old(atoms)@) + (if record {
                        made
                    } else {
                        Seq::empty()
                    }),
                decreases nodes.len() - i,
            {
                let child = &nodes[i];
                assert(decreases_to!(nodes => child));
                assert(views[i as int] == child@);
                let ghost before = atom_views(atoms@);
                match eval_bool(child, ctx, record, atoms) {
                    Err(e) => {
                        return Err(e);
                    },
                    Ok(b) => {
                        proof {
                            let a = run_bool(child@, env)->Ok_0.1;
                            assert(atom_views(old(atoms)@) + (made + a) =~= (atom_views(
                                old(atoms)@,
                            ) + made) + a);
                            assert(atom_views(old(atoms)@) + Seq::<AtomView>::empty()
                                + Seq::<AtomView>::empty() =~= atom_views(old(atoms)@)
                                + Seq::<AtomView>::empty());
                            made = made + a;
                        }
                        if !b {
                            return Ok(false);
                        }
                    },
                }
                i += 1;
            }
            Ok(true)
        },
        AstNode::Or(nodes) => {
            let ghost views = node_views(*nodes);
            let ghost env = ctx.env();
            let ghost mut made: Seq<AtomView> = Seq::empty();
            let mut i: usize = 0;
            assert(decreases_to!(node => nodes));
            assert(atom_views(atoms@) + Seq::<AtomView>::empty() =~= atom_views(atoms@));
            while i < nodes.len()
                invariant
                    decreases_to!(node => nodes),
                    i <= nodes.len(),
                    views == node_views(*nodes),
                    env == ctx.env(),
                    run_bool(node@, env) == run_any(views, i as int, env, made),
                    atom_views(atoms@) == atom_views(old(atoms)@) + (if record {
                        made
                    } else {
                        Seq::empty()
                    }),
                decreases nodes.len() - i,
            {
                let child = &nodes[i];
                assert(decreases_to!(nodes => child));
                assert(views[i as int] == child@);
                match eval_bool(child, ctx, record, atoms) {
                    Err(e) => {
                        return Err(e);
                    },
                    Ok(b) => {
                        proof {
                            let a = run_bool(child@, env)->Ok_0.1;
                            assert(atom_views(old(atoms)@) + (made + a) =~= (atom_views(
                                old(atoms)@,
                            ) + made) + a);
                            assert(atom_views(old(atoms)@) + Seq::<AtomView>::empty()
                                + Seq::<AtomView>::empty() =~= atom_views(old(atoms)@)
                                + Seq::<AtomView>::empty());
                            made = made + a;
                        }
                        if b {
                            return Ok(true);
                        }
                    },
                }
                i += 1;
            }
            Ok(false)
        },
        AstNode::Comparison { left, op, right } => {
            let ghost start = atom_views(atoms@);
            let lv = match eval_value(left, ctx, record, atoms) {
                Err(e) => {
                    return Err(e);
                },
                Ok(v) => v,
            };
            let rv = match eval_value(right, ctx, record, atoms) {
                Err(e) => {
                    return Err(e);
                },
                Ok(v) => v,
            };
            let result = compare_values(&lv, &rv, *op);
            if record {
                let atom = AtomTrace {
                    left: node_to_string(left),
                    op: *op,
                    right: node_to_string(right),
                    resolved_left_value: Some(value_to_string(&lv)),
                    resolved_right_value: Some(value_to_string(&rv)),
                    atom_result: result,
                };
                let ghost before = atom_views(atoms@);
                atoms.push(atom);
                assert(atom_views(atoms@) =~= before + seq![atom@]);
            }
            proof {
                let la = run_value(left@, ctx.env())->Ok_0.1;
                let ra = run_value(right@, ctx.env())->Ok_0.1;
                let one = seq![atom_of(left@, *op, right@, lv@, rv@)];
                assert(start + (la + ra + one) =~= start + la + ra + one);
                assert(start + Seq::<AtomView>::empty() + Seq::<AtomView>::empty() =~= start
                    + Seq::<AtomView>::empty());
            }
            Ok(result)
        },
        _ => {
            match eval_value(node, ctx, record, atoms) {
                Err(e) => Err(e),
                Ok(v) => match v {
                    Value::Bool(b) => Ok(b),
                    _ => Err(not_boolean_error(&v)),
                },
            }
        },
    }
}

/// Evaluates the nodes of a list or of the arguments of a call.
fn eval_items<R: HelResolver + ?Sized>(
    nodes: &Vec<AstNode>,
    ctx: &EvalContext<R>,
    record: bool,
    atoms: &mut Vec<AtomTrace>,
) -> (r: Result<Vec<Value>, EvalError>)
    ensures
        match (r, run_items(node_views(*nodes), 0, ctx.env(), Seq::empty(), Seq::empty())) {
            (Ok(values), Ok((views, made))) => ran::<bool>(
                value_views(values) == views,
                made,
                record,
                old(atoms)@,
                final(atoms)@,
            ),
            (Err(e), Err(v)) => e@ == v,
            _ => false,
        },
    decreases nodes, 0int, 0int,
{
    let ghost views = node_views(*nodes);
    let ghost env = ctx.env();
    let ghost mut made: Seq<AtomView> = Seq::empty();
    let mut values: Vec<Value> = Vec::new();
    let mut i: usize = 0;
    assert(atom_views(atoms@) + Seq::<AtomView>::empty() =~= atom_views(atoms@));
    assert(value_views(values) =~= Seq::<ValueView>::empty());
    while i < nodes.len()
        invariant
            i <= nodes.len(),
            views == node_views(*nodes),
            env == ctx.env(),
            run_items(views, 0, env, Seq::empty(), Seq::empty()) == run_items(
                views,
                i as int,
                env,
                value_views(values),
                made,
            ),
            atom_views(atoms@) == atom_views(old(atoms)@) + (if record {
                made
            } else {
                Seq::empty()
            }),
        decreases nodes.len() - i,
    {
        let child = &nodes[i];
        assert(decreases_to!(nodes => child));
        assert(views[i as int] == child@);
        match eval_value(child, ctx, record, atoms) {
            Err(e) => {
                return Err(e);
            },
            Ok(v) => {
                proof {
                    let a = run_value(child@, env)->Ok_0.1;
                    assert(atom_views(old(atoms)@) + (made + a) =~= (atom_views(old(atoms)@)
                        + made) + a);
                    assert(atom_views(old(atoms)@) + Seq::<AtomView>::empty()
                        + Seq::<AtomView>::empty() =~= atom_views(old(atoms)@)
                        + Seq::<AtomView>::empty());
                    made = made + a;
                }
                let ghost before = value_views(values);
                values.push(v);
                assert(value_views(values) =~= before.push(v@));
            },
        }
        i += 1;
    }
    Ok(values)
}

/// Evaluates a node at a value position, recording its atoms if asked.
pub fn eval_value<R: HelResolver + ?Sized>(
    node: &AstNode,
    ctx: &EvalContext<R>,
    record: bool,
    atoms: &mut Vec<AtomTrace>,
) -> (r: Result<Value, EvalError>)
    ensures
        value_ran(r, run_value(node@, ctx.env()), record, old(atoms)@, final(atoms)@),
    decreases node, (if is_logical(node@) {
            1int
        } else {
            0int
        }), 0int,
{
    proof {
        assert(atom_views(atoms@) + Seq::<AtomView>::empty() =~= atom_views(atoms@));
    }
    match node {
        AstNode::Bool(b) => Ok(Value::Bool(*b)),
        AstNode::String(s) => Ok(Value::String(s.clone())),
        AstNode::Number(n) => Ok(Value::Number(from_u64(*n))),
        AstNode::Float(f) => Ok(Value::Number(*f)),
        AstNode::Identifier(name) => {
            match ctx.get_variable(name.as_str()) {
                Some(v) => Ok(v.clone()),
                None => Ok(Value::String(name.clone())),
            }
        },
        AstNode::Attribute { object, field } => {
            match ctx.resolver.resolve_attr(object.as_str(), field.as_str()) {
                Some(v) => Ok(v),
                None => Ok(Value::Null),
            }
        },
        AstNode::ListLiteral(nodes) => {
            assert(decreases_to!(node => nodes));
            match eval_items(nodes, ctx, record, atoms) {
                Err(e) => Err(e),
                Ok(values) => Ok(Value::List(values)),
            }
        },
        AstNode::MapLiteral(entries) => {
            let ghost views = entry_views(*entries);
            let ghost env = ctx.env();
            let ghost mut made: Seq<AtomView> = Seq::empty();
            let mut map: Vec<(String, Value)> = Vec::new();
            let mut i: usize = 0;
            assert(decreases_to!(node => entries));
            assert(crate::value::entry_views(map) =~= Seq::<(Seq<char>, ValueView)>::empty());
            while i < entries.len()
                invariant
                    decreases_to!(node => entries),
                    i <= entries.len(),
                    views == entry_views(*entries),
                    node@ == Ast::MapLiteral(views),
                    env == ctx.env(),
                    run_entries(views, 0, env, Seq::empty(), Seq::empty()) == run_entries(
                        views,
                        i as int,
                        env,
                        crate::value::entry_views(map),
                        made,
                    ),
                    atom_views(atoms@) == atom_views(old(atoms)@) + (if record {
                        made
                    } else {
                        Seq::empty()
                    }),
                decreases entries.len() - i,
            {
                let entry = &entries[i];
                assert(decreases_to!(entries => entry));
                assert(views[i as int] == (entry.0@, entry.1@));
                match eval_value(&entry.1, ctx, record, atoms) {
                    Err(e) => {
                        return Err(e);
                    },
                    Ok(v) => {
                        proof {
                            let a = run_value(entry.1@, env)->Ok_0.1;
                            assert(atom_views(old(atoms)@) + (made + a) =~= (atom_views(
                                old(atoms)@,
                            ) + made) + a);
                            assert(atom_views(old(atoms)@) + Seq::<AtomView>::empty()
                                + Seq::<AtomView>::empty() =~= atom_views(old(atoms)@)
                                + Seq::<AtomView>::empty());
                            made = made + a;
                        }
                        let ghost before = crate::value::entry_views(map);
                        assert(keys_of(map@) =~= variable_names(before));
                        proof {
                            lemma_lower_bound(keys_of(map@), entry.0@, 0);
                        }
                        place(&mut map, entry.0.clone(), v);
                        assert(crate::value::entry_views(map) =~= placed(
                            before,
                            variable_names(before),
                            entry.0@,
                            (entry.0@, v@),
                        ));
                    },
                }
                i += 1;
            }
            Ok(Value::Mapping(map))
        },
        AstNode::FunctionCall { namespace, name, args } => {
            assert(decreases_to!(node => args));
            let values = match eval_items(args, ctx, record, atoms) {
                Err(e) => {
                    return Err(e);
                },
                Ok(values) => values,
            };
            match ctx.builtins {
                None => Err(no_registry_error(namespace, name.as_str())),
                Some(registry) => {
                    assert(slice_views(values@) =~= value_views(values));
                    match namespace {
                        Some(ns) => registry.call(ns.as_str(), name.as_str(), values.as_slice()),
                        None => registry.call("core", name.as_str(), values.as_slice()),
                    }
                },
            }
        },
        _ => {
            match eval_bool(node, ctx, record, atoms) {
                Err(e) => Err(e),
                Ok(b) => Ok(Value::Bool(b)),
            }
        },
    }
}

/// What evaluating a rule text gives: a syntax error, or the run of its
/// tree.
pub open spec fn rule_run(text: Seq<char>, env: Env) -> Run<bool> {
    match parsed(text) {
        Err(e) => Err(EvalErrorView::ParseError(hel_error_text(e))),
        Ok(ast) => run_bool(ast, env),
    }
}

/// The verdict of a run.
pub open spec fn verdict(run: Run<bool>) -> Result<bool, EvalErrorView> {
    match run {
        Ok((b, _)) => Ok(b),
        Err(e) => Err(e),
    }
}

/// The trace of a run.
pub open spec fn trace_of(run: Run<bool>) -> Result<TraceView, EvalErrorView> {
    match run {
        Ok((b, atoms)) => Ok(TraceView { result: b, atoms }),
        Err(e) => Err(e),
    }
}

/// The contents of a verdict or its error.
pub open spec fn verdict_view(r: Result<bool, EvalError>) -> Result<bool, EvalErrorView> {
    match r {
        Ok(b) => Ok(b),
        Err(e) => Err(e@),
    }
}

/// The environment of a resolver, a registry if there is one, and no
/// variables.
pub open spec fn plain_env<R: HelResolver + ?Sized>(
    resolver: &R,
    builtins: Option<RegistryModel>,
) -> Env {
    Env {
        facts: |object: Seq<char>, field: Seq<char>| resolver.fact(object, field),
        builtins,
        variables: Seq::empty(),
    }
}

/// Parses a rule and evaluates it in a context, without a trace.
fn evaluate_in<R: HelResolver + ?Sized>(condition: &str, ctx: &EvalContext<R>) -> (r: Result<
    bool,
    EvalError,
>)
    ensures
        verdict_view(r) == verdict(rule_run(condition@, ctx.env())),
{
    match parse_expression(condition) {
        Err(e) => Err(EvalError::ParseError(e.to_text())),
        Ok(ast) => {
            let mut atoms: Vec<AtomTrace> = Vec::new();
            eval_bool(&ast, ctx, false, &mut atoms)
        },
    }
}

/// Evaluates a rule against the facts of a resolver. Calls to built-ins
/// fail, for no registry is attached.
pub fn evaluate_with_resolver<R: HelResolver + ?Sized>(condition: &str, resolver: &R) -> (r:
    Result<bool, EvalError>)
    ensures
        verdict_view(r) == verdict(rule_run(condition@, plain_env(resolver, None))),
{
    let ctx = EvalContext::new(resolver);
    assert(ctx.env().variables =~= Seq::empty());
    assert(ctx.env().facts == plain_env(resolver, None).facts);
    assert(ctx.env() == plain_env(resolver, None));
    evaluate_in(condition, &ctx)
}

/// Evaluates a rule against the facts of a resolver, with a registry of
/// built-ins.
pub fn evaluate_with_context<R: HelResolver + ?Sized>(
    condition: &str,
    resolver: &R,
    builtins: &BuiltinsRegistry,
) -> (r: Result<bool, EvalError>)
    ensures
        verdict_view(r) == verdict(rule_run(condition@, plain_env(resolver, Some(builtins@)))),
{
    let ctx = EvalContext::with_builtins(resolver, builtins);
    assert(ctx.env().variables =~= Seq::empty());
    assert(ctx.env().facts == plain_env(resolver, Some(builtins@)).facts);
    assert(ctx.env() == plain_env(resolver, Some(builtins@)));
    evaluate_in(condition, &ctx)
}

/// The contents of a trace or its error.
pub open spec fn trace_view(r: Result<EvalTrace, EvalError>) -> Result<TraceView, EvalErrorView> {
    match r {
        Ok(t) => Ok(t@),
        Err(e) => Err(e@),
    }
}

/// The model of an optional registry.
pub open spec fn registry_model(builtins: Option<&BuiltinsRegistry>) -> Option<RegistryModel> {
    match builtins {
        Some(registry) => Some(registry@),
        None => None,
    }
}

/// Evaluates a rule and returns the trace of the run: its verdict and
/// its atoms.
pub fn evaluate_with_trace<R: HelResolver + ?Sized>(
    condition: &str,
    resolver: &R,
    builtins: Option<&BuiltinsRegistry>,
) -> (r: Result<EvalTrace, EvalError>)
    ensures
        trace_view(r) == trace_of(
            rule_run(condition@, plain_env(resolver, registry_model(builtins))),
        ),
{
    let ctx = match builtins {
        Some(b) => EvalContext::with_builtins(resolver, b),
        None => EvalContext::new(resolver),
    };
    assert(ctx.env().variables =~= Seq::empty());
    assert(ctx.env().facts == plain_env(resolver, registry_model(builtins)).facts);
    assert(ctx.env() == plain_env(resolver, registry_model(builtins)));
    match parse_expression(condition) {
        Err(e) => Err(EvalError::ParseError(e.to_text())),
        Ok(ast) => {
            let mut atoms: Vec<AtomTrace> = Vec::new();
            assert(atom_views(atoms@) =~= Seq::<AtomView>::empty());
            match eval_bool(&ast, &ctx, true, &mut atoms) {
                Err(e) => Err(e),
                Ok(result) => {
                    proof {
                        let made = run_bool(ast@, ctx.env())->Ok_0.1;
                        assert(Seq::<AtomView>::empty() + made =~= made);
                    }
                    Ok(EvalTrace { result, atoms })
                },
            }
        },
    }
}

/// Plain and traced evaluation agree: the result of the trace is the
/// verdict of the evaluation, and one fails exactly when the other does,
/// with the same error.
pub proof fn lemma_trace_agrees(text: Seq<char>, env: Env)
    ensures
        match (verdict(rule_run(text, env)), trace_of(rule_run(text, env))) {
            (Ok(b), Ok(t)) => t.result == b,
            (Err(e), Err(f)) => e == f,
            _ => false,
        },
{
}

} // verus!
