//! Laws of the library that relate several of its functions.

use crate::assoc::{
    ascending, assigned, has_key, key_index, lemma_assigned_keys, lemma_key_index,
};
use crate::ast::Ast;
use crate::eval::{
    run_all, run_any, run_bool, run_entries, run_items, run_value, variable_names, Env,
};
use crate::schema::package::{pair_keys, PackageErrorView};
use crate::schema::registry::{
    concluded, loaded, resolution_of, resolve_each, resolve_one, RegistryView, Resolution,
};
use crate::script::{bound, run_bindings, script_verdict, ScriptView};
use crate::error::EvalErrorView;
use crate::trace::AtomView;
use crate::text::text_lt;
use crate::builtins::dispatch;
use crate::value::{all_well_formed, mapping_keys, values_equal, well_formed, ValueView};
use vstd::prelude::*;

verus! {

/// Whether the identifier `name` occurs in the tree.
pub open spec fn mentions(n: Ast, name: Seq<char>) -> bool
    decreases n, 1int,
{
    match n {
        Ast::Identifier(s) => s == name,
        Ast::Comparison { left, op, right } => mentions(*left, name) || mentions(*right, name),
        Ast::And(nodes) => mentioned_in(nodes, name),
        Ast::Or(nodes) => mentioned_in(nodes, name),
        Ast::ListLiteral(nodes) => mentioned_in(nodes, name),
        Ast::MapLiteral(entries) => exists|i: int|
            0 <= i < entries.len() && mentions((#[trigger] entries[i]).1, name),
        Ast::FunctionCall { namespace, name: function, args } => mentioned_in(args, name),
        _ => false,
    }
}

/// Whether the identifier `name` occurs in one of the trees.
pub open spec fn mentioned_in(nodes: Seq<Ast>, name: Seq<char>) -> bool
    decreases nodes, 0int,
{
    exists|i: int| 0 <= i < nodes.len() && mentions(#[trigger] nodes[i], name)
}

/// The value that an environment binds to a name, if it binds one.
pub open spec fn variable_of(env: Env, name: Seq<char>) -> Option<ValueView> {
    let i = key_index(variable_names(env.variables), name, 0);
    if 0 <= i < env.variables.len() {
        Some(env.variables[i].1)
    } else {
        None
    }
}

/// Two environments that differ at most in what they bind to `name`.
pub open spec fn alike_but_for(a: Env, b: Env, name: Seq<char>) -> bool {
    &&& a.facts == b.facts
    &&& a.builtins == b.builtins
    &&& forall|other: Seq<char>|
        other != name ==> #[trigger] variable_of(a, other) == variable_of(b, other)
}

/// After a variable is bound it has the value that it was bound to, and
/// every other variable has the value that it had.
pub proof fn lemma_bound_variable(env: Env, name: Seq<char>, value: ValueView, other: Seq<char>)
    ensures
        variable_of(bound(env, name, value), other) == (if other == name {
            Some(value)
        } else {
            variable_of(env, other)
        }),
{
    let names = variable_names(env.variables);
    let after = bound(env, name, value);
    assert(variable_names(after.variables) =~= assigned(names, names, name, name));
    lemma_assigned_keys(names, name, other);
    lemma_key_index(names, other, 0);
    lemma_key_index(names, name, 0);
    lemma_key_index(variable_names(after.variables), other, 0);
}

/// Binding the same variable to the same value in two environments that
/// differ at most in `name` gives two such environments again.
pub proof fn lemma_bound_alike(a: Env, b: Env, name: Seq<char>, x: Seq<char>, value: ValueView)
    requires
        alike_but_for(a, b, name),
    ensures
        alike_but_for(bound(a, x, value), bound(b, x, value), name),
{
    assert forall|other: Seq<char>| other != name implies #[trigger] variable_of(
        bound(a, x, value),
        other,
    ) == variable_of(bound(b, x, value), other) by {
        lemma_bound_variable(a, x, value, other);
        lemma_bound_variable(b, x, value, other);
        assert(variable_of(a, other) == variable_of(b, other));
    }
}

/// A variable that a tree does not mention has no part in what the tree
/// gives, at a boolean position or at a value position: in two
/// environments that differ at most in that variable the tree gives the
/// same.
pub proof fn lemma_unused_variable(n: Ast, a: Env, b: Env, name: Seq<char>)
    requires
        !mentions(n, name),
        alike_but_for(a, b, name),
    ensures
        run_bool(n, a) == run_bool(n, b),
        run_value(n, a) == run_value(n, b),
    decreases n, 1int, 0int,
{
    match n {
        Ast::Identifier(s) => {
            assert(variable_of(a, s) == variable_of(b, s));
        },
        Ast::Comparison { left, op, right } => {
            lemma_unused_variable(*left, a, b, name);
            lemma_unused_variable(*right, a, b, name);
        },
        Ast::And(nodes) => {
            lemma_unused_all(nodes, 0, a, b, name, Seq::empty());
        },
        Ast::Or(nodes) => {
            lemma_unused_any(nodes, 0, a, b, name, Seq::empty());
        },
        Ast::ListLiteral(nodes) => {
            lemma_unused_items(nodes, 0, a, b, name, Seq::empty(), Seq::empty());
        },
        Ast::MapLiteral(entries) => {
            lemma_unused_entries(entries, 0, a, b, name, Seq::empty(), Seq::empty());
        },
        Ast::FunctionCall { namespace, name: function, args } => {
            lemma_unused_items(args, 0, a, b, name, Seq::empty(), Seq::empty());
        },
        _ => {},
    }
}

/// [`lemma_unused_variable`] for the operands of an `And`.
proof fn lemma_unused_all(
    nodes: Seq<Ast>,
    from: int,
    a: Env,
    b: Env,
    name: Seq<char>,
    atoms: Seq<AtomView>,
)
    requires
        !mentioned_in(nodes, name),
        alike_but_for(a, b, name),
        0 <= from,
    ensures
        run_all(nodes, from, a, atoms) == run_all(nodes, from, b, atoms),
    decreases nodes, 0int, nodes.len() - from,
{
    if from < nodes.len() {
        assert(!mentions(nodes[from], name));
        lemma_unused_variable(nodes[from], a, b, name);
        match run_bool(nodes[from], a) {
            Ok((_, made)) => {
                lemma_unused_all(nodes, from + 1, a, b, name, atoms + made);
            },
            Err(_) => {},
        }
    }
}

/// [`lemma_unused_variable`] for the operands of an `Or`.
proof fn lemma_unused_any(
    nodes: Seq<Ast>,
    from: int,
    a: Env,
    b: Env,
    name: Seq<char>,
    atoms: Seq<AtomView>,
)
    requires
        !mentioned_in(nodes, name),
        alike_but_for(a, b, name),
        0 <= from,
    ensures
        run_any(nodes, from, a, atoms) == run_any(nodes, from, b, atoms),
    decreases nodes, 0int, nodes.len() - from,
{
    if from < nodes.len() {
        assert(!mentions(nodes[from], name));
        lemma_unused_variable(nodes[from], a, b, name);
        match run_bool(nodes[from], a) {
            Ok((_, made)) => {
                lemma_unused_any(nodes, from + 1, a, b, name, atoms + made);
            },
            Err(_) => {},
        }
    }
}

/// [`lemma_unused_variable`] for the elements of a list or the arguments of a call.
proof fn lemma_unused_items(
    nodes: Seq<Ast>,
    from: int,
    a: Env,
    b: Env,
    name: Seq<char>,
    values: Seq<ValueView>,
    atoms: Seq<AtomView>,
)
    requires
        !mentioned_in(nodes, name),
        alike_but_for(a, b, name),
        0 <= from,
    ensures
        run_items(nodes, from, a, values, atoms) == run_items(nodes, from, b, values, atoms),
    decreases nodes, 0int, nodes.len() - from,
{
    if from < nodes.len() {
        assert(!mentions(nodes[from], name));
        lemma_unused_variable(nodes[from], a, b, name);
        match run_value(nodes[from], a) {
            Ok((v, made)) => {
                lemma_unused_items(nodes, from + 1, a, b, name, values.push(v), atoms + made);
            },
            Err(_) => {},
        }
    }
}

/// [`lemma_unused_variable`] for the entries of a map literal.
proof fn lemma_unused_entries(
    entries: Seq<(Seq<char>, Ast)>,
    from: int,
    a: Env,
    b: Env,
    name: Seq<char>,
    made: Seq<(Seq<char>, ValueView)>,
    atoms: Seq<AtomView>,
)
    requires
        forall|i: int| 0 <= i < entries.len() ==> !mentions((#[trigger] entries[i]).1, name),
        alike_but_for(a, b, name),
        0 <= from,
    ensures
        run_entries(entries, from, a, made, atoms) == run_entries(entries, from, b, made, atoms),
    decreases entries, 0int, entries.len() - from,
{
    if from < entries.len() {
        assert(!mentions(entries[from].1, name));
        lemma_unused_variable(entries[from].1, a, b, name);
        match run_value(entries[from].1, a) {
            Ok((v, more)) => {
                lemma_unused_entries(
                    entries,
                    from + 1,
                    a,
                    b,
                    name,
                    crate::assoc::placed(
                        made,
                        variable_names(made),
                        entries[from].0,
                        (entries[from].0, v),
                    ),
                    atoms + more,
                );
            },
            Err(_) => {},
        }
    }
}

/// Whether two runs of bindings end alike: with the same error, or with
/// environments that differ at most in what they bind to `name`.
pub open spec fn end_alike(
    x: Result<Env, EvalErrorView>,
    y: Result<Env, EvalErrorView>,
    name: Seq<char>,
) -> bool {
    match (x, y) {
        (Ok(a), Ok(b)) => alike_but_for(a, b, name),
        (Err(e), Err(f)) => e == f,
        _ => false,
    }
}

/// Whether none of the bindings from position `from` on mentions `name`
/// in its expression.
pub open spec fn unmentioned_from(bindings: Seq<(Seq<char>, Ast)>, from: int, name: Seq<char>) -> bool {
    forall|i: int| from <= i < bindings.len() ==> !mentions((#[trigger] bindings[i]).1, name)
}

/// Bindings that do not mention `name`, run in two environments that
/// differ at most in `name`, end alike. The first run is of `longer` from
/// position `from + 1`, the second of `bindings` from position `from`,
/// where `longer` is `bindings` with one binding more at or before `from`.
proof fn lemma_rest_alike(
    longer: Seq<(Seq<char>, Ast)>,
    bindings: Seq<(Seq<char>, Ast)>,
    from: int,
    a: Env,
    b: Env,
    name: Seq<char>,
)
    requires
        0 <= from <= bindings.len(),
        longer.len() == bindings.len() + 1,
        forall|i: int| from <= i < bindings.len() ==> longer[i + 1] == bindings[i],
        unmentioned_from(bindings, from, name),
        alike_but_for(a, b, name),
    ensures
        end_alike(run_bindings(longer, from + 1, a), run_bindings(bindings, from, b), name),
    decreases bindings.len() - from,
{
    if from < bindings.len() {
        assert(longer[from + 1] == bindings[from]);
        assert(!mentions(bindings[from].1, name));
        lemma_unused_variable(bindings[from].1, a, b, name);
        match run_value(bindings[from].1, a) {
            Ok((v, _)) => {
                lemma_bound_alike(a, b, name, bindings[from].0, v);
                lemma_rest_alike(
                    longer,
                    bindings,
                    from + 1,
                    bound(a, bindings[from].0, v),
                    bound(b, bindings[from].0, v),
                    name,
                );
            },
            Err(_) => {},
        }
    }
}

/// The bindings of a script with one more binding at position `at`, which
/// no later binding mentions and whose own evaluation succeeds, end as
/// the bindings without it do, but for the variable of that binding.
pub proof fn lemma_inserted_binding(
    bindings: Seq<(Seq<char>, Ast)>,
    at: int,
    name: Seq<char>,
    expr: Ast,
    from: int,
    env: Env,
)
    requires
        0 <= from <= at <= bindings.len(),
        unmentioned_from(bindings, at, name),
        run_bindings(bindings.take(at), from, env) is Ok ==> run_value(
            expr,
            run_bindings(bindings.take(at), from, env)->Ok_0,
        ) is Ok,
    ensures
        end_alike(
            run_bindings(bindings.insert(at, (name, expr)), from, env),
            run_bindings(bindings, from, env),
            name,
        ),
    decreases at - from,
{
    let longer = bindings.insert(at, (name, expr));
    let before = bindings.take(at);
    if from < at {
        assert(longer[from] == bindings[from]);
        assert(before[from] == bindings[from]);
        match run_value(bindings[from].1, env) {
            Ok((v, _)) => {
                lemma_inserted_binding(
                    bindings,
                    at,
                    name,
                    expr,
                    from + 1,
                    bound(env, bindings[from].0, v),
                );
            },
            Err(_) => {},
        }
    } else {
        assert(longer[at] == (name, expr));
        assert(run_bindings(before, from, env) == Ok::<Env, EvalErrorView>(env));
        let v = run_value(expr, env)->Ok_0.0;
        assert forall|other: Seq<char>| other != name implies #[trigger] variable_of(
            bound(env, name, v),
            other,
        ) == variable_of(env, other) by {
            lemma_bound_variable(env, name, v, other);
        }
        assert forall|i: int| at <= i < bindings.len() implies longer[i + 1] == bindings[i] by {}
        lemma_rest_alike(longer, bindings, at, bound(env, name, v), env, name);
    }
}

/// Adding a binding to a script, at any position, leaves the verdict of
/// the script as it is, if neither a later binding nor the final
/// expression mentions the name of the new binding and the evaluation of
/// its own expression succeeds where it is reached.
pub proof fn lemma_unused_binding(
    script: ScriptView,
    env: Env,
    at: int,
    name: Seq<char>,
    expr: Ast,
)
    requires
        0 <= at <= script.bindings.len(),
        unmentioned_from(script.bindings, at, name),
        !mentions(script.final_expr, name),
        run_bindings(script.bindings.take(at), 0, env) is Ok ==> run_value(
            expr,
            run_bindings(script.bindings.take(at), 0, env)->Ok_0,
        ) is Ok,
    ensures
        script_verdict(
            ScriptView {
                bindings: script.bindings.insert(at, (name, expr)),
                final_expr: script.final_expr,
            },
            env,
        ) == script_verdict(script, env),
{
    lemma_inserted_binding(script.bindings, at, name, expr, 0, env);
    let with = run_bindings(script.bindings.insert(at, (name, expr)), 0, env);
    let without = run_bindings(script.bindings, 0, env);
    if with is Ok {
        lemma_unused_variable(script.final_expr, with->Ok_0, without->Ok_0, name);
    }
}

/// Two packages that depend on each other, and on nothing else, cannot be
/// resolved: resolving the first of them reports a circular dependency on
/// it. (With the packages exchanged, the same holds of the second.)
pub proof fn lemma_cycle_is_reported(registry: RegistryView, first: Seq<char>, second: Seq<char>)
    requires
        first != second,
        loaded(registry.files, registry.search_paths, registry.packages, first) is Ok,
        pair_keys(
            loaded(
                registry.files,
                registry.search_paths,
                registry.packages,
                first,
            )->Ok_0.1.manifest.dependencies,
        ) == seq![second],
        loaded(
            registry.files,
            registry.search_paths,
            loaded(registry.files, registry.search_paths, registry.packages, first)->Ok_0.0,
            second,
        ) is Ok,
        pair_keys(
            loaded(
                registry.files,
                registry.search_paths,
                loaded(registry.files, registry.search_paths, registry.packages, first)->Ok_0.0,
                second,
            )->Ok_0.1.manifest.dependencies,
        ) == seq![first],
    ensures
        resolution_of(registry, first).error == Some(
            PackageErrorView::CircularDependency { package: first },
        ),
{
    let files = registry.files;
    let search_paths = registry.search_paths;
    let packages = registry.packages;
    let depth = usize::MAX as nat;
    let none = Seq::<Seq<char>>::empty();
    let start = Resolution { packages, resolved: none, error: None };
    let (after_first, first_package) = loaded(files, search_paths, packages, first)->Ok_0;
    let (after_second, second_package) = loaded(files, search_paths, after_first, second)->Ok_0;
    let one = none.push(first);
    let two = one.push(second);
    assert(!has_key(none, first));
    assert(!has_key(none, second));
    assert(!has_key(one, second)) by {
        lemma_key_index(one, second, 0);
    }
    assert(has_key(two, first)) by {
        lemma_key_index(two, first, 0);
        assert(two[0] == first);
    }
    let state_one = Resolution { packages: after_first, resolved: none, error: None };
    let state_two = Resolution { packages: after_second, resolved: none, error: None };
    let d1 = (depth - 1) as nat;
    let d2 = (depth - 2) as nat;
    let innermost = resolve_one(files, search_paths, state_two, first, two, d2);
    assert(innermost.error == Some(PackageErrorView::CircularDependency { package: first }));
    let deps_second = seq![first];
    assert(resolve_each(files, search_paths, state_two, deps_second, 0, two, d2) == innermost);
    let middle = resolve_one(files, search_paths, state_one, second, one, d1);
    assert(middle == concluded(innermost, second));
    let deps_first = seq![second];
    assert(resolve_each(files, search_paths, state_one, deps_first, 0, one, d1) == middle);
}

/// A key that stands at some position is one of the keys.
pub proof fn lemma_key_at(keys: Seq<Seq<char>>, i: int)
    requires
        0 <= i < keys.len(),
    ensures
        has_key(keys, keys[i]),
{
    lemma_key_index(keys, keys[i], 0);
}

/// Two ascending runs of keys that hold the same keys are the same run.
pub proof fn lemma_ascending_same_keys(a: Seq<Seq<char>>, b: Seq<Seq<char>>)
    requires
        ascending(a),
        ascending(b),
        forall|k: Seq<char>| has_key(a, k) <==> has_key(b, k),
    ensures
        a == b,
    decreases a.len(),
{
    if a.len() == 0 {
        if b.len() > 0 {
            lemma_key_at(b, 0);
            lemma_key_index(a, b[0], 0);
        }
        assert(a =~= b);
    } else {
        let top = a.last();
        lemma_key_at(a, a.len() - 1);
        lemma_key_index(b, top, 0);
        assert(b.len() > 0);
        let other = b.last();
        lemma_key_at(b, b.len() - 1);
        lemma_key_index(a, other, 0);
        let j = key_index(b, top, 0);
        let i = key_index(a, other, 0);
        if top != other {
            assert(j < b.len() - 1);
            assert(i < a.len() - 1);
            assert(text_lt(b[j], b[b.len() - 1]));
            assert(text_lt(a[i], a[a.len() - 1]));
            crate::text::lemma_text_lt_transitive(top, other, top);
            crate::text::lemma_text_lt_irreflexive(top);
        }
        let a0 = a.drop_last();
        let b0 = b.drop_last();
        assert forall|k: Seq<char>| has_key(a0, k) <==> has_key(b0, k) by {
            lemma_key_index(a0, k, 0);
            lemma_key_index(b0, k, 0);
            lemma_key_index(a, k, 0);
            lemma_key_index(b, k, 0);
            crate::text::lemma_text_lt_irreflexive(top);
            if has_key(a0, k) {
                let x = key_index(a0, k, 0);
                assert(a[x] == k);
                assert(text_lt(a[x], a[a.len() - 1]));
                lemma_key_at(a, x);
                let y = key_index(b, k, 0);
                assert(y < b.len() - 1);
                assert(b0[y] == k);
                lemma_key_at(b0, y);
            }
            if has_key(b0, k) {
                let y = key_index(b0, k, 0);
                assert(b[y] == k);
                assert(text_lt(b[y], b[b.len() - 1]));
                lemma_key_at(b, y);
                let x = key_index(a, k, 0);
                assert(x < a.len() - 1);
                assert(a0[x] == k);
                lemma_key_at(a0, x);
            }
        }
        assert(ascending(a0)) by {
            assert forall|x: int, y: int| 0 <= x < y < a0.len() implies text_lt(
                #[trigger] a0[x],
                #[trigger] a0[y],
            ) by {
                assert(text_lt(a[x], a[y]));
            }
        }
        assert(ascending(b0)) by {
            assert forall|x: int, y: int| 0 <= x < y < b0.len() implies text_lt(
                #[trigger] b0[x],
                #[trigger] b0[y],
            ) by {
                assert(text_lt(b[x], b[y]));
            }
        }
        lemma_ascending_same_keys(a0, b0);
        assert(a =~= a0.push(top));
        assert(b =~= b0.push(other));
    }
}

/// Whether two mappings hold the same keys, with equal values under each
/// key.
pub open spec fn equal_by_key(
    x: Seq<(Seq<char>, ValueView)>,
    y: Seq<(Seq<char>, ValueView)>,
) -> bool {
    &&& forall|k: Seq<char>| has_key(mapping_keys(x), k) <==> has_key(mapping_keys(y), k)
    &&& forall|i: int, j: int|
        0 <= i < x.len() && 0 <= j < y.len() && (#[trigger] x[i]).0 == (#[trigger] y[j]).0
            ==> values_equal(x[i].1, y[j].1)
}

/// Mappings whose keys ascend are equal exactly when they hold the same
/// keys, with equal values under each key.
pub proof fn lemma_mapping_equality(
    x: Seq<(Seq<char>, ValueView)>,
    y: Seq<(Seq<char>, ValueView)>,
)
    requires
        ascending(mapping_keys(x)),
        ascending(mapping_keys(y)),
    ensures
        values_equal(ValueView::Mapping(x), ValueView::Mapping(y)) <==> equal_by_key(x, y),
{
    let kx = mapping_keys(x);
    let ky = mapping_keys(y);
    if values_equal(ValueView::Mapping(x), ValueView::Mapping(y)) {
        assert(kx =~= ky) by {
            assert forall|i: int| 0 <= i < kx.len() implies kx[i] == ky[i] by {
                assert(x[i].0 == y[i].0);
            }
        }
        assert forall|i: int, j: int|
            0 <= i < x.len() && 0 <= j < y.len() && (#[trigger] x[i]).0 == (#[trigger] y[j]).0
            implies values_equal(x[i].1, y[j].1) by {
            assert(kx[i] == kx[j]);
            crate::assoc::lemma_ascending_unique(kx, i, j);
        }
    }
    if equal_by_key(x, y) {
        lemma_ascending_same_keys(kx, ky);
        assert(x.len() == y.len());
        assert forall|i: int| 0 <= i < x.len() implies (#[trigger] x[i]).0 == y[i].0
            && values_equal(x[i].1, y[i].1) by {
            assert(kx[i] == ky[i]);
        }
    }
}

/// The mapping that a map literal gives has ascending keys.
pub proof fn lemma_map_literal_ascends(
    entries: Seq<(Seq<char>, Ast)>,
    from: int,
    env: Env,
    made: Seq<(Seq<char>, ValueView)>,
    atoms: Seq<AtomView>,
)
    requires
        0 <= from,
        ascending(mapping_keys(made)),
    ensures
        run_entries(entries, from, env, made, atoms) is Ok ==> ascending(
            mapping_keys(run_entries(entries, from, env, made, atoms)->Ok_0.0),
        ),
    decreases entries.len() - from,
{
    if from < entries.len() {
        match run_value(entries[from].1, env) {
            Ok((v, a)) => {
                let keys = mapping_keys(made);
                let key = entries[from].0;
                let next = crate::assoc::placed(made, variable_names(made), key, (key, v));
                assert(variable_names(made) =~= keys);
                crate::assoc::lemma_placed_keys(keys, key);
                crate::assoc::lemma_lower_bound(keys, key, 0);
                assert(mapping_keys(next) =~= crate::assoc::placed(keys, keys, key, key));
                lemma_map_literal_ascends(entries, from + 1, env, next, atoms + a);
            },
            Err(_) => {},
        }
    }
}

/// Whether everything that an environment hands out is well formed: its
/// facts, its variables, and what its built-in functions return for
/// well-formed arguments.
pub open spec fn env_well_formed(env: Env) -> bool {
    &&& forall|object: Seq<char>, field: Seq<char>|
        (#[trigger] (env.facts)(object, field)) matches Some(v) ==> well_formed(v)
    &&& forall|i: int|
        0 <= i < env.variables.len() ==> well_formed((#[trigger] env.variables[i]).1)
    &&& env.builtins matches Some(model) ==> forall|
        ns: Seq<char>,
        name: Seq<char>,
        args: Seq<ValueView>,
    |
        all_well_formed(args) ==> ((#[trigger] dispatch(model, ns, name, args)) matches Ok(v)
            ==> well_formed(v))
}

/// Placing a well-formed value into a well-formed mapping gives a
/// well-formed mapping.
pub proof fn lemma_placed_well_formed(
    made: Seq<(Seq<char>, ValueView)>,
    key: Seq<char>,
    value: ValueView,
)
    requires
        well_formed(ValueView::Mapping(made)),
        well_formed(value),
    ensures
        well_formed(
            ValueView::Mapping(crate::assoc::placed(made, variable_names(made), key, (key, value))),
        ),
{
    let keys = mapping_keys(made);
    let next = crate::assoc::placed(made, variable_names(made), key, (key, value));
    assert(variable_names(made) =~= keys);
    crate::assoc::lemma_placed_keys(keys, key);
    crate::assoc::lemma_lower_bound(keys, key, 0);
    let p = crate::assoc::lower_bound(keys, key, 0);
    assert(mapping_keys(next) =~= crate::assoc::placed(keys, keys, key, key));
    assert forall|i: int| 0 <= i < next.len() implies well_formed((#[trigger] next[i]).1) by {
        if p < keys.len() && keys[p] == key {
            if i != p {
                assert(next[i] == made[i]);
            }
        } else {
            if i < p {
                assert(next[i] == made[i]);
            } else if i > p {
                assert(next[i] == made[i - 1]);
            }
        }
    }
}

/// What a rule gives at a value position is well formed, where the
/// environment is: evaluation makes well-formed values only.
pub proof fn lemma_evaluation_well_formed(n: Ast, env: Env)
    requires
        env_well_formed(env),
    ensures
        run_value(n, env) matches Ok((v, _)) ==> well_formed(v),
    decreases n, 1int, 0int,
{
    match n {
        Ast::Identifier(name) => {},
        Ast::Attribute { object, field } => {
            let fact = (env.facts)(object, field);
        },
        Ast::ListLiteral(nodes) => {
            lemma_items_well_formed(nodes, 0, env, Seq::empty(), Seq::empty());
        },
        Ast::MapLiteral(entries) => {
            assert(mapping_keys(Seq::<(Seq<char>, ValueView)>::empty()) =~= Seq::<
                Seq<char>,
            >::empty());
            lemma_entries_well_formed(entries, 0, env, Seq::empty(), Seq::empty());
        },
        Ast::FunctionCall { namespace, name, args } => {
            lemma_items_well_formed(args, 0, env, Seq::empty(), Seq::empty());
        },
        _ => {},
    }
}

/// [`lemma_evaluation_well_formed`] for the elements of a list or the
/// arguments of a call.
proof fn lemma_items_well_formed(
    nodes: Seq<Ast>,
    from: int,
    env: Env,
    values: Seq<ValueView>,
    atoms: Seq<AtomView>,
)
    requires
        env_well_formed(env),
        all_well_formed(values),
        0 <= from,
    ensures
        run_items(nodes, from, env, values, atoms) matches Ok((all, _)) ==> all_well_formed(all),
    decreases nodes, 0int, nodes.len() - from,
{
    if from < nodes.len() {
        lemma_evaluation_well_formed(nodes[from], env);
        match run_value(nodes[from], env) {
            Ok((v, made)) => {
                lemma_items_well_formed(nodes, from + 1, env, values.push(v), atoms + made);
            },
            Err(_) => {},
        }
    }
}

/// [`lemma_evaluation_well_formed`] for the entries of a map literal.
proof fn lemma_entries_well_formed(
    entries: Seq<(Seq<char>, Ast)>,
    from: int,
    env: Env,
    made: Seq<(Seq<char>, ValueView)>,
    atoms: Seq<AtomView>,
)
    requires
        env_well_formed(env),
        well_formed(ValueView::Mapping(made)),
        0 <= from,
    ensures
        run_entries(entries, from, env, made, atoms) matches Ok((all, _)) ==> well_formed(
            ValueView::Mapping(all),
        ),
    decreases entries, 0int, entries.len() - from,
{
    if from < entries.len() {
        lemma_evaluation_well_formed(entries[from].1, env);
        match run_value(entries[from].1, env) {
            Ok((v, more)) => {
                lemma_placed_well_formed(made, entries[from].0, v);
                lemma_entries_well_formed(
                    entries,
                    from + 1,
                    env,
                    crate::assoc::placed(
                        made,
                        variable_names(made),
                        entries[from].0,
                        (entries[from].0, v),
                    ),
                    atoms + more,
                );
            },
            Err(_) => {},
        }
    }
}

} // verus!
