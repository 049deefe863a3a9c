//! Scripts: `let` bindings followed by one final expression, and the
//! facts context that scripts and rules are evaluated against.
//!
//! A script is read line by line. Blank lines and lines that start with
//! `#` are skipped. A line `let NAME = EXPR` opens a binding; the lines
//! after it continue its expression for as long as that expression is not
//! yet complete and no other `let` line starts. The first other line starts
//! the final expression, to which all the lines that remain belong.

use crate::assoc::{assign, assigned, key_index, keys_of, lemma_key_index, position};
use crate::ast::{Ast, AstNode};
use crate::error::{
    converted_kind, converted_message, ErrorKind, EvalErrorView, HelError, HelErrorView,
};
use crate::eval::{
    eval_bool, eval_value, run_bool, run_value, variable_names, variable_views, Env, EvalContext,
    HelResolver,
};
use crate::parser::{parse_chars, parsed};
use crate::text::{
    chars_of, find_char, find_from, has_char, has_prefix, lines_of, push_chars, push_str, slice_of,
    split_lines, starts_with, string_of, texts, trim, trimmed,
};
use crate::trace::AtomTrace;
use crate::value::{Value, ValueView};
use vstd::prelude::*;

verus! {

/// Facts by key, a key being an object and a field with a dot between
/// them.
pub struct FactsEvalContext {
    pub facts: Vec<(String, Value)>,
}

impl View for FactsEvalContext {
    type V = Seq<(Seq<char>, ValueView)>;

    open spec fn view(&self) -> Seq<(Seq<char>, ValueView)> {
        variable_views(self.facts@)
    }
}

/// The fact stored under `key`, if there is one.
pub open spec fn fact_at(facts: Seq<(Seq<char>, ValueView)>, key: Seq<char>) -> Option<ValueView> {
    let i = key_index(variable_names(facts), key, 0);
    if 0 <= i < facts.len() {
        Some(facts[i].1)
    } else {
        None
    }
}

impl FactsEvalContext {
    /// Whether the context is well formed: no key occurs twice.
    pub open spec fn well_formed(&self) -> bool {
        crate::assoc::distinct(variable_names(self@))
    }

    /// A context without facts.
    pub fn new() -> (r: FactsEvalContext)
        ensures
            r@ == Seq::<(Seq<char>, ValueView)>::empty(),
            r.well_formed(),
    {
        let r = FactsEvalContext { facts: Vec::new() };
        assert(r@ =~= Seq::<(Seq<char>, ValueView)>::empty());
        r
    }

    /// Sets the fact of a key, replacing the fact it had.
    pub fn add_fact(&mut self, key: &str, value: Value)
        ensures
            final(self)@ == assigned(old(self)@, variable_names(old(self)@), key@, (key@, value@)),
            fact_at(final(self)@, key@) == Some(value@),
            forall|other: Seq<char>|
                other != key@ ==> fact_at(final(self)@, other) == fact_at(old(self)@, other),
            old(self).well_formed() ==> final(self).well_formed(),
    {
        let ghost before = self.facts@;
        assert(keys_of(before) =~= variable_names(variable_views(before)));
        proof {
            lemma_key_index(keys_of(before), key@, 0);
        }
        assign(&mut self.facts, key.to_owned(), value);
        assert(self@ =~= assigned(old(self)@, variable_names(old(self)@), key@, (key@, value@)));
        proof {
            let names = variable_names(old(self)@);
            assert(variable_names(self@) =~= assigned(names, names, key@, key@));
            if old(self).well_formed() {
                crate::assoc::lemma_assigned_distinct(names, key@);
            }
            crate::assoc::lemma_assigned_keys(names, key@, key@);
            assert forall|other: Seq<char>| other != key@ implies fact_at(self@, other) == fact_at(
                old(self)@,
                other,
            ) by {
                crate::assoc::lemma_assigned_keys(names, key@, other);
                lemma_key_index(names, other, 0);
                lemma_key_index(variable_names(self@), other, 0);
            }
        }
    }

    /// A context for a JSON text. The text is not read: the context that
    /// is returned holds no facts.
    pub fn from_json(json: &str) -> (r: Result<FactsEvalContext, HelError>)
        ensures
            r is Ok,
            r->Ok_0@ == Seq::<(Seq<char>, ValueView)>::empty(),
    {
        Ok(FactsEvalContext::new())
    }
}

impl Default for FactsEvalContext {
    fn default() -> (r: FactsEvalContext)
        ensures
            r@ == Seq::<(Seq<char>, ValueView)>::empty(),
    {
        FactsEvalContext::new()
    }
}

impl HelResolver for FactsEvalContext {
    open spec fn fact(&self, object: Seq<char>, field: Seq<char>) -> Option<ValueView> {
        fact_at(self@, object + "."@ + field)
    }

    fn resolve_attr(&self, object: &str, field: &str) -> (r: Option<Value>) {
        let mut key: Vec<char> = Vec::new();
        push_str(&mut key, object);
        push_str(&mut key, ".");
        push_str(&mut key, field);
        assert(key@ =~= object@ + "."@ + field@);
        let key = string_of(&key);
        assert(keys_of(self.facts@) =~= variable_names(self@));
        match position(&self.facts, key.as_str()) {
            Some(i) => Some(self.facts[i].1.clone()),
            None => None,
        }
    }
}

/// The environment of a facts context: its facts, no registry, no
/// variables.
pub open spec fn facts_env(facts: Seq<(Seq<char>, ValueView)>) -> Env {
    Env {
        facts: |object: Seq<char>, field: Seq<char>| fact_at(facts, object + "."@ + field),
        builtins: None,
        variables: Seq::empty(),
    }
}

/// The error of the public API that stands for an evaluation error.
pub open spec fn converted(e: EvalErrorView) -> HelErrorView {
    HelErrorView {
        message: converted_message(e),
        line: None,
        column: None,
        kind: converted_kind(e),
    }
}

/// What evaluating a rule text against facts gives.
pub open spec fn evaluated(text: Seq<char>, env: Env) -> Result<bool, HelErrorView> {
    match parsed(text) {
        Err(e) => Err(e),
        Ok(ast) => match run_bool(ast, env) {
            Ok((b, _)) => Ok(b),
            Err(e) => Err(converted(e)),
        },
    }
}

/// The contents of a verdict of the public API.
pub open spec fn answer_view(r: Result<bool, HelError>) -> Result<bool, HelErrorView> {
    match r {
        Ok(b) => Ok(b),
        Err(e) => Err(e@),
    }
}

/// Evaluates a rule against a facts context.
pub fn evaluate(expr: &str, context: &FactsEvalContext) -> (r: Result<bool, HelError>)
    ensures
        answer_view(r) == evaluated(expr@, facts_env(context@)),
{
    let chars = chars_of(expr);
    match parse_chars(&chars) {
        Err(e) => Err(e),
        Ok(ast) => {
            let ctx = EvalContext::new(context);
            assert(ctx.env().variables =~= Seq::empty());
            assert(ctx.env().facts == facts_env(context@).facts);
            assert(ctx.env() == facts_env(context@));
            let mut atoms: Vec<AtomTrace> = Vec::new();
            match eval_bool(&ast, &ctx, false, &mut atoms) {
                Ok(b) => Ok(b),
                Err(e) => Err(HelError::from_eval(e)),
            }
        },
    }
}

/// A parsed script.
#[derive(Clone, Debug, PartialEq, Eq)]
pub struct Script {
    /// The bindings, in the order of the text.
    pub bindings: Vec<(String, AstNode)>,
    /// The final expression, which gives the verdict.
    pub final_expr: AstNode,
}

/// The mathematical content of a [`Script`].
pub struct ScriptView {
    pub bindings: Seq<(Seq<char>, Ast)>,
    pub final_expr: Ast,
}

impl View for Script {
    type V = ScriptView;

    open spec fn view(&self) -> ScriptView {
        ScriptView {
            bindings: crate::ast::entry_views(self.bindings),
            final_expr: self.final_expr@,
        }
    }
}

/// Whether a trimmed line is blank or a comment.
pub open spec fn is_skipped(line: Seq<char>) -> bool {
    line.len() == 0 || line[0] == '#'
}

/// The text of the expression of a binding and the line after it: the
/// text so far, continued by the lines from `from` on while it is not a
/// complete expression and no `let` line starts.
pub open spec fn binding_text(lines: Seq<Seq<char>>, from: int, text: Seq<char>) -> (Seq<char>, int)
    decreases lines.len() - from,
{
    if from < 0 || from >= lines.len() {
        (text, from)
    } else {
        let next = trimmed(lines[from]);
        if is_skipped(next) {
            binding_text(lines, from + 1, text)
        } else if has_prefix(next, "let "@) || parsed(text) is Ok {
            (text, from)
        } else {
            binding_text(lines, from + 1, text + " "@ + next)
        }
    }
}

/// The text of the final expression: the text so far and every line from
/// `from` on that is not skipped, with single spaces between them.
pub open spec fn final_text(lines: Seq<Seq<char>>, from: int, text: Seq<char>) -> Seq<char>
    decreases lines.len() - from,
{
    if from < 0 || from >= lines.len() {
        text
    } else {
        let next = trimmed(lines[from]);
        if is_skipped(next) {
            final_text(lines, from + 1, text)
        } else {
            final_text(lines, from + 1, text + " "@ + next)
        }
    }
}

/// The text of a binding ends between its start and the end of the lines.
pub proof fn lemma_binding_text(lines: Seq<Seq<char>>, from: int, text: Seq<char>)
    requires
        0 <= from <= lines.len(),
    ensures
        from <= binding_text(lines, from, text).1 <= lines.len(),
    decreases lines.len() - from,
{
    if from < lines.len() {
        let next = trimmed(lines[from]);
        if is_skipped(next) {
            lemma_binding_text(lines, from + 1, text);
        } else if has_prefix(next, "let "@) || parsed(text) is Ok {
        } else {
            lemma_binding_text(lines, from + 1, text + " "@ + next);
        }
    }
}

/// The error of a script that has no final expression.
pub open spec fn no_final_expression() -> HelErrorView {
    HelErrorView {
        message: "Script must have a final boolean expression"@,
        line: None,
        column: None,
        kind: ErrorKind::ParseError,
    }
}

/// The part of a `let` line after the word `let`, trimmed.
pub open spec fn let_rest(line: Seq<char>) -> Seq<char> {
    trimmed(line.subrange(4, line.len() as int))
}

/// Whether a trimmed line opens a binding.
pub open spec fn opens_binding(line: Seq<char>) -> bool {
    has_prefix(line, "let "@) && line.len() >= 4 && has_char(let_rest(line), '=')
}

/// The script that the lines from `from` on complete, after the bindings
/// read so far; or the first error.
pub open spec fn script_from(lines: Seq<Seq<char>>, from: int, bindings: Seq<(Seq<char>, Ast)>) -> Result<
    ScriptView,
    HelErrorView,
>
    decreases lines.len() - from,
{
    if from < 0 || from >= lines.len() {
        Err(no_final_expression())
    } else {
        let line = trimmed(lines[from]);
        if is_skipped(line) {
            script_from(lines, from + 1, bindings)
        } else if opens_binding(line) {
            let rest = let_rest(line);
            let eq = find_from(rest, '=', 0);
            let name = trimmed(rest.subrange(0, eq));
            let first = trimmed(rest.subrange(eq + 1, rest.len() as int));
            let (text, next) = binding_text(lines, from + 1, first);
            match parsed(text) {
                Err(e) => Err(e),
                Ok(ast) => {
                    if from < next <= lines.len() {
                        script_from(lines, next, bindings.push((name, ast)))
                    } else {
                        Err(no_final_expression())
                    }
                },
            }
        } else {
            match parsed(final_text(lines, from + 1, line)) {
                Err(e) => Err(e),
                Ok(ast) => Ok(ScriptView { bindings, final_expr: ast }),
            }
        }
    }
}

/// The script that a text denotes, or its first error.
pub open spec fn script_of(text: Seq<char>) -> Result<ScriptView, HelErrorView> {
    script_from(lines_of(text), 0, Seq::empty())
}

/// Whether a parsed script is what the text denotes.
pub open spec fn script_result_is(r: Result<Script, HelError>, s: Result<ScriptView, HelErrorView>) -> bool {
    match (r, s) {
        (Ok(script), Ok(view)) => script@ == view,
        (Err(e), Err(v)) => e@ == v,
        _ => false,
    }
}

/// Executable form of [`is_skipped`].
fn line_is_skipped(line: &Vec<char>) -> (r: bool)
    ensures
        r == is_skipped(line@),
{
    line.len() == 0 || line[0] == '#'
}

/// Parses a script.
pub fn parse_script(script: &str) -> (r: Result<Script, HelError>)
    ensures
        script_result_is(r, script_of(script@)),
{
    let chars = chars_of(script);
    let lines = split_lines(&chars);
    let ghost all = lines_of(script@);
    let mut bindings: Vec<(String, AstNode)> = Vec::new();
    let mut i: usize = 0;
    assert(crate::ast::entry_views(bindings) =~= Seq::<(Seq<char>, Ast)>::empty());
    while i < lines.len()
        invariant
            i <= lines.len(),
            all == texts(lines@),
            all == lines_of(script@),
            script_of(script@) == script_from(all, i as int, crate::ast::entry_views(bindings)),
        decreases lines.len() - i,
    {
        let line = trim(&lines[i]);
        assert(all[i as int] == lines[i as int]@);
        if line_is_skipped(&line) {
            i += 1;
            continue ;
        }
        proof {
            reveal_strlit("let ");
        }
        if starts_with(&line, "let ") {
            let rest = trim(&slice_of(&line, 4, line.len()));
            let eq = find_char(&rest, '=', 0);
            if eq < rest.len() {
                let name = string_of(&trim(&slice_of(&rest, 0, eq)));
                let mut text = trim(&slice_of(&rest, eq + 1, rest.len()));
                let ghost first = text@;
                let mut next: usize = i + 1;
                let mut done = false;
                while next < lines.len() && !done
                    invariant
                        i < next <= lines.len(),
                        all == texts(lines@),
                        binding_text(all, i as int + 1, first) == binding_text(
                            all,
                            next as int,
                            text@,
                        ),
                        done ==> binding_text(all, next as int, text@) == (text@, next as int),
                    decreases lines.len() - next, (if done { 0int } else { 1int }),
                {
                    let candidate = trim(&lines[next]);
                    assert(all[next as int] == lines[next as int]@);
                    if line_is_skipped(&candidate) {
                        next += 1;
                    } else if starts_with(&candidate, "let ") || parse_chars(&text).is_ok() {
                        done = true;
                    } else {
                        let ghost before = text@;
                        text.push(' ');
                        push_chars(&mut text, &candidate);
                        proof {
                            reveal_strlit(" ");
                            assert(" "@ =~= seq![' ']);
                            assert(text@ =~= before + " "@ + candidate@);
                        }
                        next += 1;
                    }
                }
                proof {
                    lemma_binding_text(all, i as int + 1, first);
                }
                match parse_chars(&text) {
                    Err(e) => {
                        return Err(e);
                    },
                    Ok(ast) => {
                        let ghost before = crate::ast::entry_views(bindings);
                        let ghost entry = (name@, ast@);
                        bindings.push((name, ast));
                        assert(crate::ast::entry_views(bindings) =~= before.push(entry));
                        i = next;
                        continue ;
                    },
                }
            }
        }
        let mut text = line;
        let ghost start = text@;
        let mut next: usize = i + 1;
        while next < lines.len()
            invariant
                i < next <= lines.len(),
                all == texts(lines@),
                final_text(all, i as int + 1, start) == final_text(all, next as int, text@),
            decreases lines.len() - next,
        {
            let candidate = trim(&lines[next]);
            assert(all[next as int] == lines[next as int]@);
            if !line_is_skipped(&candidate) {
                let ghost before = text@;
                text.push(' ');
                push_chars(&mut text, &candidate);
                proof {
                    reveal_strlit(" ");
                    assert(" "@ =~= seq![' ']);
                    assert(text@ =~= before + " "@ + candidate@);
                }
            }
            next += 1;
        }
        return match parse_chars(&text) {
            Err(e) => Err(e),
            Ok(ast) => Ok(Script { bindings, final_expr: ast }),
        };
    }
    Err(HelError::parse_error("Script must have a final boolean expression".to_owned()))
}

/// The environment after a variable is bound.
pub open spec fn bound(env: Env, name: Seq<char>, value: ValueView) -> Env {
    Env {
        facts: env.facts,
        builtins: env.builtins,
        variables: assigned(env.variables, variable_names(env.variables), name, (name, value)),
    }
}

/// The environment after the bindings from position `from` on are
/// evaluated in order, each seeing those before it; or the first error.
pub open spec fn run_bindings(bindings: Seq<(Seq<char>, Ast)>, from: int, env: Env) -> Result<
    Env,
    EvalErrorView,
>
    decreases bindings.len() - from,
{
    if from < 0 || from >= bindings.len() {
        Ok(env)
    } else {
        match run_value(bindings[from].1, env) {
            Err(e) => Err(e),
            Ok((v, _)) => run_bindings(bindings, from + 1, bound(env, bindings[from].0, v)),
        }
    }
}

/// The verdict of a script: its bindings are evaluated in order, then its
/// final expression with all of them bound.
pub open spec fn script_verdict(script: ScriptView, env: Env) -> Result<bool, HelErrorView> {
    match run_bindings(script.bindings, 0, env) {
        Err(e) => Err(converted(e)),
        Ok(full) => match run_bool(script.final_expr, full) {
            Ok((b, _)) => Ok(b),
            Err(e) => Err(converted(e)),
        },
    }
}

/// What evaluating a script text gives.
pub open spec fn script_evaluated(text: Seq<char>, env: Env) -> Result<bool, HelErrorView> {
    match script_of(text) {
        Err(e) => Err(e),
        Ok(script) => script_verdict(script, env),
    }
}

/// Evaluates a parsed script in a context.
pub fn run_script<R: HelResolver + ?Sized>(script: &Script, context: EvalContext<R>) -> (r:
    Result<bool, HelError>)
    ensures
        answer_view(r) == script_verdict(script@, context.env()),
{
    let ghost views = script@.bindings;
    let ghost start = context.env();
    let mut ctx = context;
    let mut i: usize = 0;
    while i < script.bindings.len()
        invariant
            i <= script.bindings.len(),
            views == crate::ast::entry_views(script.bindings),
            views == script@.bindings,
            start == context.env(),
            run_bindings(views, 0, start) == run_bindings(views, i as int, ctx.env()),
        decreases script.bindings.len() - i,
    {
        let name = &script.bindings[i].0;
        let expr = &script.bindings[i].1;
        assert(views[i as int] == (name@, expr@));
        let mut atoms: Vec<AtomTrace> = Vec::new();
        match eval_value(expr, &ctx, false, &mut atoms) {
            Err(e) => {
                return Err(HelError::from_eval(e));
            },
            Ok(value) => {
                let ghost before = ctx.env();
                ctx = ctx.with_variable(name.clone(), value);
                assert(ctx.env().facts == before.facts);
                assert(ctx.env() == bound(before, name@, value@));
            },
        }
        i += 1;
    }
    let mut atoms: Vec<AtomTrace> = Vec::new();
    match eval_bool(&script.final_expr, &ctx, false, &mut atoms) {
        Ok(b) => Ok(b),
        Err(e) => Err(HelError::from_eval(e)),
    }
}

/// Evaluates a script against a facts context.
pub fn evaluate_script(script: &str, context: &FactsEvalContext) -> (r: Result<bool, HelError>)
    ensures
        answer_view(r) == script_evaluated(script@, facts_env(context@)),
{
    match parse_script(script) {
        Err(e) => Err(e),
        Ok(parsed_script) => {
            let ctx = EvalContext::new(context);
            assert(ctx.env().variables =~= Seq::empty());
            assert(ctx.env().facts == facts_env(context@).facts);
            assert(ctx.env() == facts_env(context@));
            run_script(&parsed_script, ctx)
        },
    }
}

/// A script without bindings gives what its final expression gives.
pub proof fn lemma_script_without_bindings(final_expr: Ast, env: Env)
    ensures
        script_verdict(ScriptView { bindings: Seq::empty(), final_expr }, env) == (match run_bool(
            final_expr,
            env,
        ) {
            Ok((b, _)) => Ok::<bool, HelErrorView>(b),
            Err(e) => Err(converted(e)),
        }),
{
}

} // verus!
