//! The registry of built-in functions.
//!
//! A provider offers functions under a namespace; the registry dispatches a
//! call by namespace and name, both compared in lower case. Built-ins are
//! pure: what a function returns depends on its arguments alone, which is
//! what its model states.

use crate::assoc::{has_key, key_index, keys_of, lemma_key_index, place, placed, position};
use crate::error::{EvalError, EvalErrorView};
use crate::number::{from_u64, num_eq, widened};
use crate::text::{
    has_substring, lowercase, push_str, str_contains, string_of, texts_of, to_lowercase,
    to_uppercase, uppercase,
};
use crate::value::{Value, ValueView};
use vstd::prelude::*;

verus! {

/// What a call gives: a value or an error.
pub type Outcome = Result<ValueView, EvalErrorView>;

/// The model of a built-in function: its outcome for each list of
/// arguments.
pub type FunctionModel = spec_fn(Seq<ValueView>) -> Outcome;

/// The model of a registry: its namespaces in the order of registration,
/// each with its functions by name.
pub type RegistryModel = Seq<(Seq<char>, Seq<(Seq<char>, FunctionModel)>)>;

/// The contents of a slice of values.
pub open spec fn slice_views(args: Seq<Value>) -> Seq<ValueView> {
    Seq::new(args.len(), |i: int| args[i]@)
}

/// The contents of the result of a call.
pub open spec fn outcome_view(r: Result<Value, EvalError>) -> Outcome {
    match r {
        Ok(v) => Ok(v@),
        Err(e) => Err(e@),
    }
}

/// A built-in function.
pub trait Builtin {
    /// What the function gives for the arguments. A function that does
    /// not say what it gives leaves its outcomes undetermined.
    open spec fn model(&self, args: Seq<ValueView>) -> Outcome {
        arbitrary()
    }

    /// Calls the function.
    fn call(&self, args: &[Value]) -> (r: Result<Value, EvalError>)
        ensures
            outcome_view(r) == self.model(slice_views(args@)),
    ;
}

/// A built-in function as the registry holds it.
pub type BuiltinFn = Box<dyn Builtin>;

/// The models of a list of named functions.
pub open spec fn function_models<B: Builtin + ?Sized>(list: Seq<(String, Box<B>)>) -> Seq<
    (Seq<char>, FunctionModel),
> {
    Seq::new(list.len(), |i: int| (list[i].0@, |args: Seq<ValueView>| list[i].1.model(args)))
}

/// A list of one named function, whose model is `model`.
pub fn one_function<B: Builtin + ?Sized>(
    name: &str,
    f: Box<B>,
    Ghost(model): Ghost<FunctionModel>,
) -> (r: Vec<(String, Box<B>)>)
    requires
        forall|args: Seq<ValueView>| (#[trigger] f.model(args)) == model(args),
    ensures
        function_models(r@) == seq![(name@, model)],
{
    let mut out: Vec<(String, Box<B>)> = Vec::new();
    out.push((name.to_owned(), f));
    assert(function_models(out@) =~~= seq![(name@, model)]);
    out
}

/// The functions of the first list followed by those of the second.
pub fn joined_functions<B: Builtin + ?Sized>(
    first: Vec<(String, Box<B>)>,
    second: Vec<(String, Box<B>)>,
) -> (r: Vec<(String, Box<B>)>)
    ensures
        function_models(r@) == function_models(first@) + function_models(second@),
{
    let mut out = first;
    let mut rest = second;
    let ghost left = out@;
    let ghost right = rest@;
    out.append(&mut rest);
    assert(out@ == left + right);
    assert(function_models(out@) =~~= function_models(left) + function_models(right));
    out
}

/// A source of built-in functions for one namespace.
pub trait BuiltinsProvider {
    /// The namespace of the provider; undetermined for a provider that
    /// does not state it.
    open spec fn namespace_text(&self) -> Seq<char> {
        arbitrary()
    }

    /// The functions of the provider, by name. Names are in lower case;
    /// of two functions of one name the first is used. Undetermined for a
    /// provider that does not state them.
    open spec fn functions(&self) -> Seq<(Seq<char>, FunctionModel)> {
        arbitrary()
    }

    /// The namespace of the provider.
    fn namespace(&self) -> (r: String)
        ensures
            r@ == self.namespace_text(),
    ;

    /// The functions of the provider.
    fn get_builtins(&self) -> (r: Vec<(String, BuiltinFn)>)
        ensures
            function_models(r@) == self.functions(),
    ;
}

/// The names under which a model stores its entries.
pub open spec fn model_keys<X>(model: Seq<(Seq<char>, X)>) -> Seq<Seq<char>> {
    Seq::new(model.len(), |i: int| model[i].0)
}

/// The error for a namespace that is not registered.
pub open spec fn unknown_namespace(ns: Seq<char>) -> EvalErrorView {
    EvalErrorView::InvalidOperation("Unknown namespace: "@ + ns)
}

/// The error for a function that its namespace lacks.
pub open spec fn unknown_function(ns: Seq<char>, name: Seq<char>) -> EvalErrorView {
    EvalErrorView::InvalidOperation("Unknown function: "@ + ns + "."@ + name)
}

/// What a call gives: the namespace and the name are put in lower case,
/// the namespace is looked up, then the function in it, and the function is
/// applied to the arguments.
pub open spec fn dispatch(
    model: RegistryModel,
    namespace: Seq<char>,
    name: Seq<char>,
    args: Seq<ValueView>,
) -> Outcome {
    let ns = lowercase(namespace);
    let f = lowercase(name);
    let i = key_index(model_keys(model), ns, 0);
    if 0 <= i < model.len() {
        let table = model[i].1;
        let j = key_index(model_keys(table), f, 0);
        if 0 <= j < table.len() {
            (table[j].1)(args)
        } else {
            Err(unknown_function(ns, f))
        }
    } else {
        Err(unknown_namespace(ns))
    }
}

/// Whether the registry has the function.
pub open spec fn has_function_in(model: RegistryModel, namespace: Seq<char>, name: Seq<char>) -> bool {
    let i = key_index(model_keys(model), lowercase(namespace), 0);
    0 <= i < model.len() && has_key(model_keys(model[i].1), lowercase(name))
}

/// The keys from position `from` on, placed into `sorted` in ascending
/// order, each once.
pub open spec fn sorted_from(keys: Seq<Seq<char>>, from: int, sorted: Seq<Seq<char>>) -> Seq<
    Seq<char>,
>
    decreases keys.len() - from,
{
    if from < 0 || from >= keys.len() {
        sorted
    } else {
        sorted_from(keys, from + 1, placed(sorted, sorted, keys[from], keys[from]))
    }
}

/// The keys in ascending order, each once.
pub open spec fn sorted_keys(keys: Seq<Seq<char>>) -> Seq<Seq<char>> {
    sorted_from(keys, 0, Seq::empty())
}

/// The keys of a table in ascending order, each once.
pub fn sorted_names<T>(entries: &Vec<(String, T)>) -> (r: Vec<String>)
    ensures
        texts_of(r@) == sorted_keys(keys_of(entries@)),
{
    let mut sorted: Vec<(String, ())> = Vec::new();
    let ghost keys = keys_of(entries@);
    assert(keys_of(sorted@) =~= Seq::<Seq<char>>::empty());
    let mut i: usize = 0;
    while i < entries.len()
        invariant
            i <= entries.len(),
            keys == keys_of(entries@),
            sorted_keys(keys) == sorted_from(keys, i as int, keys_of(sorted@)),
        decreases entries.len() - i,
    {
        let ghost before = keys_of(sorted@);
        proof {
            crate::assoc::lemma_lower_bound(before, keys[i as int], 0);
        }
        place(&mut sorted, entries[i].0.clone(), ());
        assert(keys_of(sorted@) =~= placed(before, before, keys[i as int], keys[i as int]));
        i += 1;
    }
    let mut out: Vec<String> = Vec::new();
    let mut j: usize = 0;
    while j < sorted.len()
        invariant
            j <= sorted.len(),
            out.len() == j,
            forall|k: int| 0 <= k < j ==> out[k]@ == sorted[k].0@,
        decreases sorted.len() - j,
    {
        out.push(sorted[j].0.clone());
        j += 1;
    }
    assert(texts_of(out@) =~= keys_of(sorted@));
    out
}

/// The registry of built-in functions.
pub struct BuiltinsRegistry {
    /// The namespaces, in lower case and in the order of registration,
    /// each with the functions of its provider.
    pub providers: Vec<(String, Vec<(String, BuiltinFn)>)>,
}

/// The model of the stored namespaces.
pub open spec fn providers_model(providers: Seq<(String, Vec<(String, BuiltinFn)>)>) -> RegistryModel {
    Seq::new(providers.len(), |i: int| (providers[i].0@, function_models(providers[i].1@)))
}

impl View for BuiltinsRegistry {
    type V = RegistryModel;

    open spec fn view(&self) -> RegistryModel {
        providers_model(self.providers@)
    }
}

/// The message for a namespace that is registered already.
pub open spec fn already_registered(ns: Seq<char>) -> Seq<char> {
    "Namespace '"@ + ns + "' is already registered"@
}

/// What a registration gives: the registry with the functions added
/// under the namespace, put in lower case, or the message that this
/// namespace is registered already.
pub open spec fn registered(
    model: RegistryModel,
    namespace: Seq<char>,
    functions: Seq<(Seq<char>, FunctionModel)>,
) -> Result<RegistryModel, Seq<char>> {
    let ns = lowercase(namespace);
    if has_key(model_keys(model), ns) {
        Err(already_registered(ns))
    } else {
        Ok(model.push((ns, functions)))
    }
}

/// The error for a namespace that is not registered.
fn namespace_error(ns: &str) -> (r: EvalError)
    ensures
        r@ == unknown_namespace(ns@),
{
    let mut out: Vec<char> = Vec::new();
    push_str(&mut out, "Unknown namespace: ");
    push_str(&mut out, ns);
    assert(out@ =~= "Unknown namespace: "@ + ns@);
    EvalError::InvalidOperation(string_of(&out))
}

/// The error for a function that its namespace lacks.
fn function_error(ns: &str, name: &str) -> (r: EvalError)
    ensures
        r@ == unknown_function(ns@, name@),
{
    let mut out: Vec<char> = Vec::new();
    push_str(&mut out, "Unknown function: ");
    push_str(&mut out, ns);
    push_str(&mut out, ".");
    push_str(&mut out, name);
    assert(out@ =~= "Unknown function: "@ + ns@ + "."@ + name@);
    EvalError::InvalidOperation(string_of(&out))
}

impl BuiltinsRegistry {
    /// Whether the registry is well formed: no namespace occurs twice.
    pub open spec fn well_formed(&self) -> bool {
        crate::assoc::distinct(model_keys(self@))
    }

    /// A registry without namespaces.
    pub fn new() -> (r: BuiltinsRegistry)
        ensures
            r@ == Seq::<(Seq<char>, Seq<(Seq<char>, FunctionModel)>)>::empty(),
            r.well_formed(),
    {
        let r = BuiltinsRegistry { providers: Vec::new() };
        assert(r@ =~= Seq::<(Seq<char>, Seq<(Seq<char>, FunctionModel)>)>::empty());
        r
    }

    /// Registers the functions of a provider under its namespace, put in
    /// lower case. Fails, and changes nothing, if that namespace is
    /// registered already.
    pub fn register<P: BuiltinsProvider + ?Sized>(&mut self, provider: &P) -> (r: Result<
        (),
        String,
    >)
        ensures
            match r {
                Ok(_) => registered(old(self)@, provider.namespace_text(), provider.functions())
                    == Ok::<RegistryModel, Seq<char>>(final(self)@),
                Err(message) => registered(
                    old(self)@,
                    provider.namespace_text(),
                    provider.functions(),
                ) == Err::<RegistryModel, Seq<char>>(message@) && final(self)@ == old(self)@,
            },
            old(self).well_formed() ==> final(self).well_formed(),
    {
        let raw = provider.namespace();
        let namespace = to_lowercase(raw.as_str());
        assert(keys_of(self.providers@) =~= model_keys(self@));
        if position(&self.providers, namespace.as_str()).is_some() {
            let mut out: Vec<char> = Vec::new();
            push_str(&mut out, "Namespace '");
            push_str(&mut out, namespace.as_str());
            push_str(&mut out, "' is already registered");
            assert(out@ =~= already_registered(namespace@));
            return Err(string_of(&out));
        }
        let builtins = provider.get_builtins();
        self.providers.push((namespace, builtins));
        assert(self@ =~= old(self)@.push(
            (lowercase(provider.namespace_text()), provider.functions()),
        ));
        proof {
            let ns = lowercase(provider.namespace_text());
            assert(model_keys(self@) =~= model_keys(old(self)@).push(ns));
            if old(self).well_formed() {
                crate::assoc::lemma_pushed_distinct(model_keys(old(self)@), ns);
            }
        }
        Ok(())
    }

    /// Calls a function by namespace and name.
    pub fn call(&self, namespace: &str, function_name: &str, args: &[Value]) -> (r: Result<
        Value,
        EvalError,
    >)
        ensures
            outcome_view(r) == dispatch(self@, namespace@, function_name@, slice_views(args@)),
    {
        let ns = to_lowercase(namespace);
        let name = to_lowercase(function_name);
        assert(keys_of(self.providers@) =~= model_keys(self@));
        match position(&self.providers, ns.as_str()) {
            None => Err(namespace_error(ns.as_str())),
            Some(i) => {
                let table = &self.providers[i].1;
                assert(keys_of(table@) =~= model_keys(self@[i as int].1));
                match position(table, name.as_str()) {
                    None => Err(function_error(ns.as_str(), name.as_str())),
                    Some(j) => {
                        assert(self@[i as int].1[j as int].1 == (|a: Seq<ValueView>|
                            table[j as int].1.model(a)));
                        table[j].1.call(args)
                    },
                }
            },
        }
    }

    /// Whether a function exists.
    pub fn has_function(&self, namespace: &str, function_name: &str) -> (r: bool)
        ensures
            r == has_function_in(self@, namespace@, function_name@),
    {
        let ns = to_lowercase(namespace);
        let name = to_lowercase(function_name);
        assert(keys_of(self.providers@) =~= model_keys(self@));
        match position(&self.providers, ns.as_str()) {
            None => false,
            Some(i) => {
                let table = &self.providers[i].1;
                assert(keys_of(table@) =~= model_keys(self@[i as int].1));
                position(table, name.as_str()).is_some()
            },
        }
    }

    /// The registered namespaces, in ascending order.
    pub fn namespaces(&self) -> (r: Vec<String>)
        ensures
            texts_of(r@) == sorted_keys(model_keys(self@)),
    {
        assert(keys_of(self.providers@) =~= model_keys(self@));
        sorted_names(&self.providers)
    }

    /// The names of the functions of a namespace, in ascending order, if
    /// the namespace is registered.
    pub fn functions_in_namespace(&self, namespace: &str) -> (r: Option<Vec<String>>)
        ensures
            match r {
                Some(names) => has_key(model_keys(self@), lowercase(namespace@)) && texts_of(
                    names@,
                ) == sorted_keys(
                    model_keys(self@[key_index(model_keys(self@), lowercase(namespace@), 0)].1),
                ),
                None => !has_key(model_keys(self@), lowercase(namespace@)),
            },
    {
        let ns = to_lowercase(namespace);
        assert(keys_of(self.providers@) =~= model_keys(self@));
        match position(&self.providers, ns.as_str()) {
            None => None,
            Some(i) => {
                let table = &self.providers[i].1;
                assert(keys_of(table@) =~= model_keys(self@[i as int].1));
                Some(sorted_names(table))
            },
        }
    }
}

impl Default for BuiltinsRegistry {
    fn default() -> (r: BuiltinsRegistry)
        ensures
            r@ == Seq::<(Seq<char>, Seq<(Seq<char>, FunctionModel)>)>::empty(),
    {
        BuiltinsRegistry::new()
    }
}

/// Two calls whose namespaces and names differ in case only give the same
/// outcome.
pub proof fn lemma_dispatch_ignores_case(
    model: RegistryModel,
    ns1: Seq<char>,
    name1: Seq<char>,
    ns2: Seq<char>,
    name2: Seq<char>,
    args: Seq<ValueView>,
)
    requires
        lowercase(ns1) == lowercase(ns2),
        lowercase(name1) == lowercase(name2),
    ensures
        dispatch(model, ns1, name1, args) == dispatch(model, ns2, name2, args),
        has_function_in(model, ns1, name1) == has_function_in(model, ns2, name2),
{
}

/// Registering a namespace twice fails: after a registration that
/// succeeded, a registration under the same namespace, or under one that
/// differs from it in case only, gives the message that the namespace is
/// registered already, whatever its functions are.
pub proof fn lemma_second_registration_fails(
    model: RegistryModel,
    ns1: Seq<char>,
    functions1: Seq<(Seq<char>, FunctionModel)>,
    ns2: Seq<char>,
    functions2: Seq<(Seq<char>, FunctionModel)>,
)
    requires
        registered(model, ns1, functions1) is Ok,
        lowercase(ns1) == lowercase(ns2),
    ensures
        registered(registered(model, ns1, functions1)->Ok_0, ns2, functions2) == Err::<
            RegistryModel,
            Seq<char>,
        >(already_registered(lowercase(ns2))),
{
    lemma_registered_is_taken(model, lowercase(ns1), functions1);
}

/// Where lower-casing a lower-case form changes nothing, a call gives
/// what the call with its namespace and name put in lower case gives.
pub proof fn lemma_call_in_lower_case(
    model: RegistryModel,
    ns: Seq<char>,
    name: Seq<char>,
    args: Seq<ValueView>,
)
    requires
        lowercase(lowercase(ns)) == lowercase(ns),
        lowercase(lowercase(name)) == lowercase(name),
    ensures
        dispatch(model, ns, name, args) == dispatch(model, lowercase(ns), lowercase(name), args),
{
}

/// Once a namespace is registered it is taken: the registry has it, so a
/// second registration under a name that differs in case only fails.
pub proof fn lemma_registered_is_taken(
    model: RegistryModel,
    ns: Seq<char>,
    functions: Seq<(Seq<char>, FunctionModel)>,
)
    ensures
        has_key(model_keys(model.push((ns, functions))), ns),
{
    let after = model_keys(model.push((ns, functions)));
    lemma_key_index(after, ns, 0);
    assert(after[model.len() as int] == ns);
}

/// The error of a function that got a value of the wrong kind.
pub open spec fn type_mismatch(expected: Seq<char>, got: ValueView, context: Seq<char>) -> EvalErrorView {
    EvalErrorView::TypeMismatch { expected, got: crate::render::debug_text(got), context }
}

/// The error for an argument of the wrong kind.
fn mismatch(expected: &str, got: &Value, context: &str) -> (r: EvalError)
    ensures
        r@ == type_mismatch(expected@, got@, context@),
{
    EvalError::TypeMismatch {
        expected: expected.to_owned(),
        got: crate::render::value_to_debug(got),
        context: context.to_owned(),
    }
}

/// The error for a wrong number of arguments.
fn wrong_arity(message: &str) -> (r: EvalError)
    ensures
        r@ == EvalErrorView::InvalidOperation(message@),
{
    EvalError::InvalidOperation(message.to_owned())
}

/// The number of bytes of a text in UTF-8, as a machine integer.
pub open spec fn byte_count(s: Seq<char>) -> u64 {
    (vstd::utf8::encode_utf8(s).len() as usize) as u64
}

/// Equality as `core.contains` sees it: as in comparisons, but mappings
/// never count as equal.
pub open spec fn plainly_equal(a: ValueView, b: ValueView) -> bool
    decreases a,
{
    match (a, b) {
        (ValueView::Null, ValueView::Null) => true,
        (ValueView::Bool(x), ValueView::Bool(y)) => x == y,
        (ValueView::String(x), ValueView::String(y)) => x == y,
        (ValueView::Number(x), ValueView::Number(y)) => num_eq(x, y),
        (ValueView::List(x), ValueView::List(y)) => x.len() == y.len() && forall|i: int|
            0 <= i < x.len() ==> plainly_equal(#[trigger] x[i], y[i]),
        _ => false,
    }
}

/// Executable form of [`plainly_equal`].
pub fn values_equal(a: &Value, b: &Value) -> (r: bool)
    ensures
        r == plainly_equal(a@, b@),
    decreases a,
{
    match (a, b) {
        (Value::Null, Value::Null) => true,
        (Value::Bool(x), Value::Bool(y)) => *x == *y,
        (Value::String(x), Value::String(y)) => *x == *y,
        (Value::Number(x), Value::Number(y)) => crate::number::bits_eq(*x, *y),
        (Value::List(x), Value::List(y)) => {
            if x.len() != y.len() {
                return false;
            }
            let mut i: usize = 0;
            assert(decreases_to!(a => x));
            while i < x.len()
                invariant
                    decreases_to!(a => x),
                    i <= x.len(),
                    x.len() == y.len(),
                    a@ == ValueView::List(crate::value::value_views(*x)),
                    b@ == ValueView::List(crate::value::value_views(*y)),
                    forall|j: int| 0 <= j < i ==> plainly_equal(#[trigger] x[j]@, y[j]@),
                decreases x.len() - i,
            {
                let item = &x[i];
                assert(decreases_to!(x => item));
                if !values_equal(item, &y[i]) {
                    assert(!plainly_equal(
                        crate::value::value_views(*x)[i as int],
                        crate::value::value_views(*y)[i as int],
                    ));
                    return false;
                }
                i += 1;
            }
            assert forall|j: int|
                0 <= j < crate::value::value_views(*x).len() implies plainly_equal(
                #[trigger] crate::value::value_views(*x)[j],
                crate::value::value_views(*y)[j],
            ) by {
                assert(plainly_equal(x[j]@, y[j]@));
            }
            true
        },
        _ => false,
    }
}

/// Whether some item of the list is plainly equal to the value.
pub open spec fn plainly_has(items: Seq<ValueView>, v: ValueView) -> bool {
    exists|i: int| 0 <= i < items.len() && plainly_equal(#[trigger] items[i], v)
}

/// `core.len`: the number of items of a list, or of bytes of a string.
pub open spec fn core_len(args: Seq<ValueView>) -> Outcome {
    if args.len() != 1 {
        Err(EvalErrorView::InvalidOperation("core.len expects 1 argument"@))
    } else {
        match args[0] {
            ValueView::List(items) => Ok(ValueView::Number(widened(items.len() as u64))),
            ValueView::String(s) => Ok(ValueView::Number(widened(byte_count(s)))),
            other => Err(type_mismatch("List or String"@, other, "core.len"@)),
        }
    }
}

/// `core.contains`: whether a list has an item plainly equal to the
/// value, or a string contains a string.
pub open spec fn core_contains(args: Seq<ValueView>) -> Outcome {
    if args.len() != 2 {
        Err(EvalErrorView::InvalidOperation("core.contains expects 2 arguments"@))
    } else {
        match args[0] {
            ValueView::List(items) => Ok(ValueView::Bool(plainly_has(items, args[1]))),
            ValueView::String(hay) => match args[1] {
                ValueView::String(needle) => Ok(ValueView::Bool(has_substring(hay, needle))),
                _ => Ok(ValueView::Bool(false)),
            },
            other => Err(type_mismatch("List or String"@, other, "core.contains"@)),
        }
    }
}

/// `core.upper`: the string in upper case.
pub open spec fn core_upper(args: Seq<ValueView>) -> Outcome {
    if args.len() != 1 {
        Err(EvalErrorView::InvalidOperation("core.upper expects 1 argument"@))
    } else {
        match args[0] {
            ValueView::String(s) => Ok(ValueView::String(uppercase(s))),
            other => Err(type_mismatch("String"@, other, "core.upper"@)),
        }
    }
}

/// `core.lower`: the string in lower case.
pub open spec fn core_lower(args: Seq<ValueView>) -> Outcome {
    if args.len() != 1 {
        Err(EvalErrorView::InvalidOperation("core.lower expects 1 argument"@))
    } else {
        match args[0] {
            ValueView::String(s) => Ok(ValueView::String(lowercase(s))),
            other => Err(type_mismatch("String"@, other, "core.lower"@)),
        }
    }
}

/// The function `core.len`.
pub struct CoreLen;

/// The function `core.contains`.
pub struct CoreContains;

/// The function `core.upper`.
pub struct CoreUpper;

/// The function `core.lower`.
pub struct CoreLower;

impl Builtin for CoreLen {
    open spec fn model(&self, args: Seq<ValueView>) -> Outcome {
        core_len(args)
    }

    fn call(&self, args: &[Value]) -> (r: Result<Value, EvalError>) {
        if args.len() != 1 {
            return Err(wrong_arity("core.len expects 1 argument"));
        }
        assert(slice_views(args@)[0] == args@[0]@);
        match &args[0] {
            Value::List(items) => Ok(Value::Number(from_u64(items.len() as u64))),
            Value::String(s) => Ok(Value::Number(from_u64(s.as_str().len() as u64))),
            other => Err(mismatch("List or String", other, "core.len")),
        }
    }
}

impl Builtin for CoreContains {
    open spec fn model(&self, args: Seq<ValueView>) -> Outcome {
        core_contains(args)
    }

    fn call(&self, args: &[Value]) -> (r: Result<Value, EvalError>) {
        if args.len() != 2 {
            return Err(wrong_arity("core.contains expects 2 arguments"));
        }
        assert(slice_views(args@)[0] == args@[0]@);
        assert(slice_views(args@)[1] == args@[1]@);
        match &args[0] {
            Value::List(items) => {
                let ghost views = crate::value::value_views(*items);
                let mut i: usize = 0;
                while i < items.len()
                    invariant
                        i <= items.len(),
                        args.len() == 2,
                        slice_views(args@)[0] == ValueView::List(views),
                        slice_views(args@)[1] == args@[1]@,
                        views == crate::value::value_views(*items),
                        forall|j: int| 0 <= j < i ==> !plainly_equal(#[trigger] views[j], args@[1]@),
                    decreases items.len() - i,
                {
                    if values_equal(&items[i], &args[1]) {
                        assert(plainly_equal(views[i as int], args@[1]@));
                        return Ok(Value::Bool(true));
                    }
                    i += 1;
                }
                Ok(Value::Bool(false))
            },
            Value::String(hay) => match &args[1] {
                Value::String(needle) => Ok(
                    Value::Bool(str_contains(hay.as_str(), needle.as_str())),
                ),
                _ => Ok(Value::Bool(false)),
            },
            other => Err(mismatch("List or String", other, "core.contains")),
        }
    }
}

impl Builtin for CoreUpper {
    open spec fn model(&self, args: Seq<ValueView>) -> Outcome {
        core_upper(args)
    }

    fn call(&self, args: &[Value]) -> (r: Result<Value, EvalError>) {
        if args.len() != 1 {
            return Err(wrong_arity("core.upper expects 1 argument"));
        }
        assert(slice_views(args@)[0] == args@[0]@);
        match &args[0] {
            Value::String(s) => Ok(Value::String(to_uppercase(s.as_str()))),
            other => Err(mismatch("String", other, "core.upper")),
        }
    }
}

impl Builtin for CoreLower {
    open spec fn model(&self, args: Seq<ValueView>) -> Outcome {
        core_lower(args)
    }

    fn call(&self, args: &[Value]) -> (r: Result<Value, EvalError>) {
        if args.len() != 1 {
            return Err(wrong_arity("core.lower expects 1 argument"));
        }
        assert(slice_views(args@)[0] == args@[0]@);
        match &args[0] {
            Value::String(s) => Ok(Value::String(to_lowercase(s.as_str()))),
            other => Err(mismatch("String", other, "core.lower")),
        }
    }
}

/// The provider of the `core` functions, which every host may register.
pub struct CoreBuiltinsProvider;

/// The functions of the `core` namespace.
pub open spec fn core_functions() -> Seq<(Seq<char>, FunctionModel)> {
    seq![
        ("len"@, |args: Seq<ValueView>| core_len(args)),
        ("contains"@, |args: Seq<ValueView>| core_contains(args)),
        ("upper"@, |args: Seq<ValueView>| core_upper(args)),
        ("lower"@, |args: Seq<ValueView>| core_lower(args)),
    ]
}

impl BuiltinsProvider for CoreBuiltinsProvider {
    open spec fn namespace_text(&self) -> Seq<char> {
        "core"@
    }

    open spec fn functions(&self) -> Seq<(Seq<char>, FunctionModel)> {
        core_functions()
    }

    fn namespace(&self) -> (r: String) {
        "core".to_owned()
    }

    fn get_builtins(&self) -> (r: Vec<(String, BuiltinFn)>) {
        let f1: BuiltinFn = Box::new(CoreLen);
        let f2: BuiltinFn = Box::new(CoreContains);
        let f3: BuiltinFn = Box::new(CoreUpper);
        let f4: BuiltinFn = Box::new(CoreLower);
        let ghost m1: FunctionModel = |args: Seq<ValueView>| core_len(args);
        let ghost m2: FunctionModel = |args: Seq<ValueView>| core_contains(args);
        let ghost m3: FunctionModel = |args: Seq<ValueView>| core_upper(args);
        let ghost m4: FunctionModel = |args: Seq<ValueView>| core_lower(args);
        assert forall|args: Seq<ValueView>| (#[trigger] f1.model(args)) == m1(args) by {}
        assert forall|args: Seq<ValueView>| (#[trigger] f2.model(args)) == m2(args) by {}
        assert forall|args: Seq<ValueView>| (#[trigger] f3.model(args)) == m3(args) by {}
        assert forall|args: Seq<ValueView>| (#[trigger] f4.model(args)) == m4(args) by {}
        let l1 = one_function("len", f1, Ghost(m1));
        let l2 = one_function("contains", f2, Ghost(m2));
        let l3 = one_function("upper", f3, Ghost(m3));
        let l4 = one_function("lower", f4, Ghost(m4));
        let builtins = joined_functions(joined_functions(l1, l2), joined_functions(l3, l4));
        assert(function_models(builtins@) =~~= core_functions());
        builtins
    }
}

/// What the core functions return is well formed.
pub proof fn lemma_core_well_formed(args: Seq<ValueView>)
    ensures
        core_len(args) matches Ok(v) ==> crate::value::well_formed(v),
        core_contains(args) matches Ok(v) ==> crate::value::well_formed(v),
        core_upper(args) matches Ok(v) ==> crate::value::well_formed(v),
        core_lower(args) matches Ok(v) ==> crate::value::well_formed(v),
{
}

} // verus!
