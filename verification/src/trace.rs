//! Evaluation traces: which comparisons a rule made, on which values, and
//! which facts it consulted.

use crate::assoc::{
    ascending, has_key, keys_of, lemma_lower_bound, lemma_placed_keys, place, placed,
};
use crate::ast::Comparator;
use crate::text::{chars_of, decimal_digits, find_char, has_char, push_decimal, push_str, string_of};
use vstd::prelude::*;

verus! {

/// What formatting a text with `{:?}` returns: the text in double quotes,
/// with its special characters escaped.
pub uninterp spec fn quoted(s: Seq<char>) -> Seq<char>;

/// The `Debug` rendering of a `str`, which depends on the text alone.
#[verifier::external_body]
pub(crate) fn debug_quoted(s: &str) -> (r: String)
    ensures
        r@ == quoted(s@),
{
    format!("{:?}", s)
}

/// The record of one evaluated comparison.
#[derive(Clone, Debug, PartialEq, Eq)]
pub struct AtomTrace {
    /// The left operand, as text.
    pub left: String,
    /// The operator.
    pub op: Comparator,
    /// The right operand, as text.
    pub right: String,
    /// The value of the left operand, rendered.
    pub resolved_left_value: Option<String>,
    /// The value of the right operand, rendered.
    pub resolved_right_value: Option<String>,
    /// What the comparison gave.
    pub atom_result: bool,
}

/// The mathematical content of an [`AtomTrace`].
pub struct AtomView {
    pub left: Seq<char>,
    pub op: Comparator,
    pub right: Seq<char>,
    pub resolved_left_value: Option<Seq<char>>,
    pub resolved_right_value: Option<Seq<char>>,
    pub atom_result: bool,
}

impl View for AtomTrace {
    type V = AtomView;

    open spec fn view(&self) -> AtomView {
        AtomView {
            left: self.left@,
            op: self.op,
            right: self.right@,
            resolved_left_value: match self.resolved_left_value {
                Some(s) => Some(s@),
                None => None,
            },
            resolved_right_value: match self.resolved_right_value {
                Some(s) => Some(s@),
                None => None,
            },
            atom_result: self.atom_result,
        }
    }
}

/// The trace of one evaluation.
#[derive(Clone, Debug, PartialEq, Eq)]
pub struct EvalTrace {
    /// The final result.
    pub result: bool,
    /// The comparisons, in the order in which they were evaluated.
    pub atoms: Vec<AtomTrace>,
}

/// The mathematical content of an [`EvalTrace`].
pub struct TraceView {
    pub result: bool,
    pub atoms: Seq<AtomView>,
}

/// The contents of a list of atoms.
pub open spec fn atom_views(atoms: Seq<AtomTrace>) -> Seq<AtomView> {
    Seq::new(atoms.len(), |i: int| atoms[i]@)
}

impl View for EvalTrace {
    type V = TraceView;

    open spec fn view(&self) -> TraceView {
        TraceView { result: self.result, atoms: atom_views(self.atoms@) }
    }
}

/// The text of an operator.
pub open spec fn op_text(op: Comparator) -> Seq<char> {
    match op {
        Comparator::Eq => "=="@,
        Comparator::Ne => "!="@,
        Comparator::Gt => ">"@,
        Comparator::Ge => ">="@,
        Comparator::Lt => "<"@,
        Comparator::Le => "<="@,
        Comparator::Contains => "CONTAINS"@,
        Comparator::In => "IN"@,
    }
}

/// The text of an operator.
pub fn comparator_to_str(op: Comparator) -> (r: &'static str)
    ensures
        r@ == op_text(op),
{
    match op {
        Comparator::Eq => "==",
        Comparator::Ne => "!=",
        Comparator::Gt => ">",
        Comparator::Ge => ">=",
        Comparator::Lt => "<",
        Comparator::Le => "<=",
        Comparator::Contains => "CONTAINS",
        Comparator::In => "IN",
    }
}

/// The text of a truth value.
pub open spec fn bool_text(b: bool) -> Seq<char> {
    if b {
        "true"@
    } else {
        "false"@
    }
}

/// The text of a truth value.
pub fn bool_to_str(b: bool) -> (r: &'static str)
    ensures
        r@ == bool_text(b),
{
    if b {
        "true"
    } else {
        "false"
    }
}

/// The rendering of an optional text: `None`, or `Some(..)` around the
/// quoted text.
pub open spec fn optional_text(s: Option<Seq<char>>) -> Seq<char> {
    match s {
        Some(t) => "Some("@ + quoted(t) + ")"@,
        None => "None"@,
    }
}

/// The one-line rendering of an atom.
pub open spec fn atom_text(a: AtomView) -> Seq<char> {
    a.left + " "@ + op_text(a.op) + " "@ + a.right + " => left_resolved="@ + optional_text(
        a.resolved_left_value,
    ) + ", right_resolved="@ + optional_text(a.resolved_right_value) + ", atom_result="@
        + bool_text(a.atom_result)
}

/// The facts that the atoms from position `from` on add to `facts`: each
/// left operand that holds a dot, placed in ascending order.
pub open spec fn facts_from(atoms: Seq<AtomView>, from: int, facts: Seq<Seq<char>>) -> Seq<
    Seq<char>,
>
    decreases atoms.len() - from,
{
    if from < 0 || from >= atoms.len() {
        facts
    } else if has_char(atoms[from].left, '.') {
        facts_from(atoms, from + 1, placed(facts, facts, atoms[from].left, atoms[from].left))
    } else {
        facts_from(atoms, from + 1, facts)
    }
}

/// The dotted left operands of the atoms, ascending and without repeats.
pub open spec fn facts_of(atoms: Seq<AtomView>) -> Seq<Seq<char>> {
    facts_from(atoms, 0, Seq::empty())
}

/// The lines of the atoms from position `from` on, each with its index.
pub open spec fn atom_lines(atoms: Seq<AtomView>, from: int) -> Seq<char>
    decreases atoms.len() - from,
{
    if from < 0 || from >= atoms.len() {
        Seq::empty()
    } else {
        "  "@ + decimal_digits(from as nat) + ": "@ + atom_text(atoms[from]) + "\n"@ + atom_lines(
            atoms,
            from + 1,
        )
    }
}

/// The quoted facts from position `from` on, separated by commas.
pub open spec fn fact_list(facts: Seq<Seq<char>>, from: int) -> Seq<char>
    decreases facts.len() - from,
{
    if from < 0 || from >= facts.len() {
        Seq::empty()
    } else if from + 1 == facts.len() {
        quoted(facts[from])
    } else {
        quoted(facts[from]) + ", "@ + fact_list(facts, from + 1)
    }
}

/// The multi-line rendering of a trace: the result, one line per atom,
/// and the facts used, which is `[]` when there are none.
pub open spec fn trace_text(t: TraceView) -> Seq<char> {
    "Result: "@ + bool_text(t.result) + "\n"@ + atom_lines(t.atoms, 0) + "Facts used: ["@
        + fact_list(facts_of(t.atoms), 0) + "]\n"@
}

/// Whether atom `i` names the fact `s`: its left operand is `s`, and `s`
/// holds a dot.
pub open spec fn names_fact(atoms: Seq<AtomView>, i: int, s: Seq<char>) -> bool {
    0 <= i < atoms.len() && atoms[i].left == s && has_char(s, '.')
}

/// Whether `s` is among `facts` or is named by an atom at or after `from`.
pub open spec fn fact_known(
    atoms: Seq<AtomView>,
    from: int,
    facts: Seq<Seq<char>>,
    s: Seq<char>,
) -> bool {
    has_key(facts, s) || exists|i: int| from <= i && #[trigger] names_fact(atoms, i, s)
}

/// The facts are ascending, and they are exactly the dotted left operands
/// of the atoms.
pub proof fn lemma_facts_from(atoms: Seq<AtomView>, from: int, facts: Seq<Seq<char>>)
    requires
        0 <= from <= atoms.len(),
        ascending(facts),
    ensures
        ascending(facts_from(atoms, from, facts)),
        forall|s: Seq<char>| #[trigger]
            has_key(facts_from(atoms, from, facts), s) <==> fact_known(atoms, from, facts, s),
    decreases atoms.len() - from,
{
    if from < atoms.len() {
        let left = atoms[from].left;
        if has_char(left, '.') {
            let next = placed(facts, facts, left, left);
            lemma_placed_keys(facts, left);
            lemma_facts_from(atoms, from + 1, next);
            assert forall|s: Seq<char>| #[trigger]
                has_key(facts_from(atoms, from, facts), s) <==> fact_known(
                    atoms,
                    from,
                    facts,
                    s,
                ) by {
                assert(has_key(facts_from(atoms, from, facts), s) <==> fact_known(
                    atoms,
                    from + 1,
                    next,
                    s,
                ));
                if fact_known(atoms, from + 1, next, s) {
                    if has_key(next, s) {
                        if !has_key(facts, s) {
                            assert(names_fact(atoms, from, s));
                        }
                    } else {
                        let i = choose|i: int| from + 1 <= i && #[trigger] names_fact(atoms, i, s);
                        assert(from <= i && names_fact(atoms, i, s));
                    }
                }
                if fact_known(atoms, from, facts, s) && !has_key(facts, s) {
                    let i = choose|i: int| from <= i && #[trigger] names_fact(atoms, i, s);
                    if i == from {
                        assert(s == left);
                        assert(has_key(next, s));
                    } else {
                        assert(from + 1 <= i && names_fact(atoms, i, s));
                    }
                }
            }
        } else {
            lemma_facts_from(atoms, from + 1, facts);
            assert forall|s: Seq<char>| #[trigger]
                has_key(facts_from(atoms, from, facts), s) <==> fact_known(
                    atoms,
                    from,
                    facts,
                    s,
                ) by {
                assert(has_key(facts_from(atoms, from, facts), s) <==> fact_known(
                    atoms,
                    from + 1,
                    facts,
                    s,
                ));
                assert(!names_fact(atoms, from, s));
                if fact_known(atoms, from + 1, facts, s) && !has_key(facts, s) {
                    let i = choose|i: int| from + 1 <= i && #[trigger] names_fact(atoms, i, s);
                    assert(from <= i && names_fact(atoms, i, s));
                }
                if fact_known(atoms, from, facts, s) && !has_key(facts, s) {
                    let i = choose|i: int| from <= i && #[trigger] names_fact(atoms, i, s);
                    assert(from + 1 <= i && names_fact(atoms, i, s));
                }
            }
        }
    } else {
        assert forall|s: Seq<char>| #[trigger]
            has_key(facts_from(atoms, from, facts), s) <==> fact_known(atoms, from, facts, s) by {
            if fact_known(atoms, from, facts, s) && !has_key(facts, s) {
                let i = choose|i: int| from <= i && #[trigger] names_fact(atoms, i, s);
                assert(names_fact(atoms, i, s));
            }
        }
    }
}

/// Appends an optional text as `Some("..")` or `None`.
fn push_optional(out: &mut Vec<char>, s: &Option<String>)
    ensures
        final(out)@ == old(out)@ + optional_text(
            match *s {
                Some(t) => Some(t@),
                None => None,
            },
        ),
{
    match s {
        Some(t) => {
            push_str(out, "Some(");
            let q = debug_quoted(t.as_str());
            push_str(out, q.as_str());
            push_str(out, ")");
            assert(out@ =~= old(out)@ + ("Some("@ + quoted(t@) + ")"@));
        },
        None => {
            push_str(out, "None");
        },
    }
}

/// Appends the quoted texts, separated by commas.
pub fn push_quoted_list(out: &mut Vec<char>, items: &Vec<String>)
    ensures
        final(out)@ == old(out)@ + fact_list(crate::text::texts_of(items@), 0),
{
    let ghost names = crate::text::texts_of(items@);
    let ghost open = out@;
    let mut j: usize = 0;
    while j < items.len()
        invariant
            j <= items.len(),
            names == crate::text::texts_of(items@),
            out@ + fact_list(names, j as int) == open + fact_list(names, 0),
        decreases items.len() - j,
    {
        let ghost before = out@;
        let q = debug_quoted(items[j].as_str());
        push_str(out, q.as_str());
        if j + 1 < items.len() {
            push_str(out, ", ");
        }
        assert(names[j as int] == items[j as int]@);
        assert(out@ + fact_list(names, j as int + 1) =~= before + fact_list(names, j as int));
        j += 1;
    }
    assert(out@ =~= open + fact_list(names, 0));
}

impl AtomTrace {
    /// The one-line rendering of the atom.
    pub fn to_text(&self) -> (r: String)
        ensures
            r@ == atom_text(self@),
    {
        let mut out: Vec<char> = Vec::new();
        self.push_text(&mut out);
        assert(out@ =~= atom_text(self@));
        string_of(&out)
    }

    /// Appends the line of the atom.
    fn push_text(&self, out: &mut Vec<char>)
        ensures
            final(out)@ == old(out)@ + atom_text(self@),
    {
        push_str(out, self.left.as_str());
        push_str(out, " ");
        push_str(out, comparator_to_str(self.op));
        push_str(out, " ");
        push_str(out, self.right.as_str());
        push_str(out, " => left_resolved=");
        push_optional(out, &self.resolved_left_value);
        push_str(out, ", right_resolved=");
        push_optional(out, &self.resolved_right_value);
        push_str(out, ", atom_result=");
        push_str(out, bool_to_str(self.atom_result));
        assert(out@ =~= old(out)@ + atom_text(self@));
    }
}

impl EvalTrace {
    /// A trace without atoms, whose result is false.
    pub fn new() -> (r: EvalTrace)
        ensures
            r@ == (TraceView { result: false, atoms: Seq::empty() }),
    {
        let r = EvalTrace { result: false, atoms: Vec::new() };
        assert(r@.atoms =~= Seq::<AtomView>::empty());
        r
    }

    /// Records one more atom, after those recorded before.
    pub fn add_atom(&mut self, atom: AtomTrace)
        ensures
            final(self)@ == (TraceView {
                result: old(self)@.result,
                atoms: old(self)@.atoms.push(atom@),
            }),
    {
        self.atoms.push(atom);
        assert(self@.atoms =~= old(self)@.atoms.push(atom@));
    }

    /// Sets the final result.
    pub fn set_result(&mut self, result: bool)
        ensures
            final(self)@ == (TraceView { result, atoms: old(self)@.atoms }),
    {
        self.result = result;
    }

    /// The facts that the rule used: the left operands of the recorded
    /// atoms that hold a dot, in ascending order, each once.
    pub fn facts_used(&self) -> (r: Vec<String>)
        ensures
            crate::text::texts_of(r@) == facts_of(self@.atoms),
            ascending(crate::text::texts_of(r@)),
            forall|s: Seq<char>|
                has_key(crate::text::texts_of(r@), s) <==> exists|i: int|
                    #[trigger] names_fact(self@.atoms, i, s),
    {
        let mut facts: Vec<(String, ())> = Vec::new();
        let ghost atoms = self@.atoms;
        let mut i: usize = 0;
        assert(keys_of(facts@) =~= Seq::<Seq<char>>::empty());
        while i < self.atoms.len()
            invariant
                i <= self.atoms.len(),
                atoms == self@.atoms,
                facts_of(atoms) == facts_from(atoms, i as int, keys_of(facts@)),
            decreases self.atoms.len() - i,
        {
            let left = chars_of(self.atoms[i].left.as_str());
            assert(atoms[i as int].left == left@);
            if find_char(&left, '.', 0) < left.len() {
                let ghost before = keys_of(facts@);
                proof {
                    lemma_lower_bound(before, left@, 0);
                }
                place(&mut facts, self.atoms[i].left.clone(), ());
                assert(keys_of(facts@) =~= placed(before, before, left@, left@));
            }
            i += 1;
        }
        let mut out: Vec<String> = Vec::new();
        let mut j: usize = 0;
        while j < facts.len()
            invariant
                j <= facts.len(),
                out.len() == j,
                forall|k: int| 0 <= k < j ==> out[k]@ == facts[k].0@,
            decreases facts.len() - j,
        {
            out.push(facts[j].0.clone());
            j += 1;
        }
        assert(crate::text::texts_of(out@) =~= keys_of(facts@));
        proof {
            lemma_facts_from(atoms, 0, Seq::empty());
            assert forall|s: Seq<char>|
                has_key(crate::text::texts_of(out@), s) <==> exists|i: int| #[trigger]
                    names_fact(atoms, i, s) by {
                let none = Seq::<Seq<char>>::empty();
                assert(!has_key(none, s));
                assert(has_key(crate::text::texts_of(out@), s) <==> fact_known(atoms, 0, none, s));
                if exists|i: int| #[trigger] names_fact(atoms, i, s) {
                    let i = choose|i: int| #[trigger] names_fact(atoms, i, s);
                    assert(0 <= i && names_fact(atoms, i, s));
                }
                if fact_known(atoms, 0, none, s) {
                    let i = choose|i: int| 0 <= i && #[trigger] names_fact(atoms, i, s);
                    assert(names_fact(atoms, i, s));
                }
            }
        }
        out
    }

    /// The multi-line rendering of the trace.
    pub fn pretty_print(&self) -> (r: String)
        ensures
            r@ == trace_text(self@),
    {
        let mut out: Vec<char> = Vec::new();
        push_str(&mut out, "Result: ");
        push_str(&mut out, bool_to_str(self.result));
        push_str(&mut out, "\n");
        let ghost head = out@;
        let ghost atoms = self@.atoms;
        let mut i: usize = 0;
        while i < self.atoms.len()
            invariant
                i <= self.atoms.len(),
                atoms == self@.atoms,
                out@ + atom_lines(atoms, i as int) == head + atom_lines(atoms, 0),
            decreases self.atoms.len() - i,
        {
            let ghost before = out@;
            push_str(&mut out, "  ");
            push_decimal(&mut out, i as u64);
            push_str(&mut out, ": ");
            self.atoms[i].push_text(&mut out);
            push_str(&mut out, "\n");
            assert(atoms[i as int] == self.atoms[i as int]@);
            assert(out@ + atom_lines(atoms, i as int + 1) =~= before + atom_lines(
                atoms,
                i as int,
            ));
            i += 1;
        }
        assert(out@ =~= head + atom_lines(atoms, 0));
        let facts = self.facts_used();
        let ghost body = out@;
        let ghost names = facts_of(atoms);
        push_str(&mut out, "Facts used: [");
        let ghost open = out@;
        let mut j: usize = 0;
        while j < facts.len()
            invariant
                j <= facts.len(),
                names == crate::text::texts_of(facts@),
                out@ + fact_list(names, j as int) == open + fact_list(names, 0),
            decreases facts.len() - j,
        {
            let ghost before = out@;
            let q = debug_quoted(facts[j].as_str());
            push_str(&mut out, q.as_str());
            if j + 1 < facts.len() {
                push_str(&mut out, ", ");
            }
            assert(names[j as int] == facts[j as int]@);
            assert(out@ + fact_list(names, j as int + 1) =~= before + fact_list(names, j as int));
            j += 1;
        }
        assert(out@ =~= open + fact_list(names, 0));
        push_str(&mut out, "]\n");
        assert(out@ =~= body + "Facts used: ["@ + fact_list(names, 0) + "]\n"@);
        string_of(&out)
    }
}

impl Default for EvalTrace {
    fn default() -> (r: EvalTrace)
        ensures
            r@ == (TraceView { result: false, atoms: Seq::empty() }),
    {
        EvalTrace::new()
    }
}

} // verus!
