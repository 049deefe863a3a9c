//! The text of nodes and of values, as traces show them.

use crate::ast::{Ast, AstNode};
use crate::shortest::{debug_number_text, number_text, push_debug_number, push_number};
use crate::trace::{debug_quoted, quoted};
use crate::text::{decimal_digits, push_decimal, push_str, string_of};
use crate::value::{entry_views, value_views, Value, ValueView};
use vstd::prelude::*;

verus! {

/// The text of an operand: literals as they are written, strings in
/// quotes, attributes with their dot, lists, maps and calls abridged.
pub open spec fn node_text(n: Ast) -> Seq<char> {
    match n {
        Ast::Bool(b) => crate::trace::bool_text(b),
        Ast::String(s) => "\""@ + s + "\""@,
        Ast::Number(v) => decimal_digits(v as nat),
        Ast::Float(f) => number_text(f),
        Ast::Identifier(s) => s,
        Ast::Attribute { object, field } => object + "."@ + field,
        Ast::ListLiteral(_) => "[...]"@,
        Ast::MapLiteral(_) => "{...}"@,
        Ast::FunctionCall { namespace, name, args } => match namespace {
            Some(ns) => ns + "."@ + name + "(...)"@,
            None => name + "(...)"@,
        },
        _ => "?"@,
    }
}

/// Executable form of [`node_text`].
pub fn node_to_string(node: &AstNode) -> (r: String)
    ensures
        r@ == node_text(node@),
{
    let mut out: Vec<char> = Vec::new();
    match node {
        AstNode::Bool(b) => {
            push_str(&mut out, crate::trace::bool_to_str(*b));
        },
        AstNode::String(s) => {
            push_str(&mut out, "\"");
            push_str(&mut out, s.as_str());
            push_str(&mut out, "\"");
        },
        AstNode::Number(v) => {
            push_decimal(&mut out, *v);
        },
        AstNode::Float(f) => {
            push_number(&mut out, *f);
        },
        AstNode::Identifier(s) => {
            push_str(&mut out, s.as_str());
        },
        AstNode::Attribute { object, field } => {
            push_str(&mut out, object.as_str());
            push_str(&mut out, ".");
            push_str(&mut out, field.as_str());
        },
        AstNode::ListLiteral(_) => {
            push_str(&mut out, "[...]");
        },
        AstNode::MapLiteral(_) => {
            push_str(&mut out, "{...}");
        },
        AstNode::FunctionCall { namespace, name, args } => {
            match namespace {
                Some(ns) => {
                    push_str(&mut out, ns.as_str());
                    push_str(&mut out, ".");
                },
                None => {},
            }
            push_str(&mut out, name.as_str());
            push_str(&mut out, "(...)");
        },
        _ => {
            push_str(&mut out, "?");
        },
    }
    assert(out@ =~= node_text(node@));
    string_of(&out)
}

/// The texts of the items from position `from` on, separated by commas.
pub open spec fn items_text(items: Seq<ValueView>, from: int) -> Seq<char>
    decreases items, items.len() - from,
{
    if from < 0 || from >= items.len() {
        Seq::empty()
    } else if from + 1 == items.len() {
        value_text(items[from])
    } else {
        value_text(items[from]) + ", "@ + items_text(items, from + 1)
    }
}

/// The texts of the entries from position `from` on, each as `key:
/// value`, separated by commas.
pub open spec fn entries_text(entries: Seq<(Seq<char>, ValueView)>, from: int) -> Seq<char>
    decreases entries, entries.len() - from,
{
    if from < 0 || from >= entries.len() {
        Seq::empty()
    } else if from + 1 == entries.len() {
        entries[from].0 + ": "@ + value_text(entries[from].1)
    } else {
        entries[from].0 + ": "@ + value_text(entries[from].1) + ", "@ + entries_text(
            entries,
            from + 1,
        )
    }
}

/// The text of a value: strings without quotes, lists in brackets, mappings
/// in braces with their entries in stored order.
pub open spec fn value_text(v: ValueView) -> Seq<char>
    decreases v,
{
    match v {
        ValueView::Null => "null"@,
        ValueView::Bool(b) => crate::trace::bool_text(b),
        ValueView::String(s) => s,
        ValueView::Number(n) => number_text(n),
        ValueView::List(items) => "["@ + items_text(items, 0) + "]"@,
        ValueView::Mapping(entries) => "{"@ + entries_text(entries, 0) + "}"@,
    }
}

/// Appends the text of a value.
pub fn push_value(out: &mut Vec<char>, value: &Value)
    ensures
        final(out)@ == old(out)@ + value_text(value@),
    decreases value,
{
    match value {
        Value::Null => {
            push_str(out, "null");
        },
        Value::Bool(b) => {
            push_str(out, crate::trace::bool_to_str(*b));
        },
        Value::String(s) => {
            push_str(out, s.as_str());
        },
        Value::Number(n) => {
            push_number(out, *n);
        },
        Value::List(items) => {
            push_str(out, "[");
            let ghost open = out@;
            let ghost views = value_views(*items);
            let mut i: usize = 0;
            assert(decreases_to!(value => items));
            while i < items.len()
                invariant
                    decreases_to!(value => items),
                    i <= items.len(),
                    views == value_views(*items),
                    out@ + items_text(views, i as int) == open + items_text(views, 0),
                decreases items.len() - i,
            {
                let ghost before = out@;
                let item = &items[i];
                assert(decreases_to!(items => item));
                push_value(out, item);
                if i + 1 < items.len() {
                    push_str(out, ", ");
                }
                assert(views[i as int] == item@);
                assert(out@ + items_text(views, i as int + 1) =~= before + items_text(
                    views,
                    i as int,
                ));
                i += 1;
            }
            assert(out@ =~= open + items_text(views, 0));
            push_str(out, "]");
            assert(out@ =~= old(out)@ + value_text(value@));
        },
        Value::Mapping(entries) => {
            push_str(out, "{");
            let ghost open = out@;
            let ghost views = entry_views(*entries);
            let mut i: usize = 0;
            assert(decreases_to!(value => entries));
            while i < entries.len()
                invariant
                    decreases_to!(value => entries),
                    i <= entries.len(),
                    views == entry_views(*entries),
                    out@ + entries_text(views, i as int) == open + entries_text(views, 0),
                decreases entries.len() - i,
            {
                let ghost before = out@;
                let entry = &entries[i];
                assert(decreases_to!(entries => entry));
                push_str(out, entry.0.as_str());
                push_str(out, ": ");
                push_value(out, &entry.1);
                if i + 1 < entries.len() {
                    push_str(out, ", ");
                }
                assert(views[i as int] == (entry.0@, entry.1@));
                assert(out@ + entries_text(views, i as int + 1) =~= before + entries_text(
                    views,
                    i as int,
                ));
                i += 1;
            }
            assert(out@ =~= open + entries_text(views, 0));
            push_str(out, "}");
            assert(out@ =~= old(out)@ + value_text(value@));
        },
    }
}

/// The text of a value.
pub fn value_to_string(value: &Value) -> (r: String)
    ensures
        r@ == value_text(value@),
{
    let mut out: Vec<char> = Vec::new();
    push_value(&mut out, value);
    assert(out@ =~= value_text(value@));
    string_of(&out)
}

/// The debug forms of the values from position `from` on, separated by
/// commas.
pub open spec fn items_debug(items: Seq<ValueView>, from: int) -> Seq<char>
    decreases items, items.len() - from,
{
    if from < 0 || from >= items.len() {
        Seq::empty()
    } else if from + 1 == items.len() {
        debug_text(items[from])
    } else {
        debug_text(items[from]) + ", "@ + items_debug(items, from + 1)
    }
}

/// The debug forms of the entries from position `from` on, each as
/// `"key": value`, separated by commas.
pub open spec fn entries_debug(entries: Seq<(Seq<char>, ValueView)>, from: int) -> Seq<char>
    decreases entries, entries.len() - from,
{
    if from < 0 || from >= entries.len() {
        Seq::empty()
    } else if from + 1 == entries.len() {
        quoted(entries[from].0) + ": "@ + debug_text(entries[from].1)
    } else {
        quoted(entries[from].0) + ": "@ + debug_text(entries[from].1) + ", "@ + entries_debug(
            entries,
            from + 1,
        )
    }
}

/// The debug form of a value, which errors show: the name of its kind
/// and, in round brackets, what it holds, with strings quoted and numbers
/// in their debug form.
pub open spec fn debug_text(v: ValueView) -> Seq<char>
    decreases v,
{
    match v {
        ValueView::Null => "Null"@,
        ValueView::Bool(b) => "Bool("@ + crate::trace::bool_text(b) + ")"@,
        ValueView::String(s) => "String("@ + quoted(s) + ")"@,
        ValueView::Number(n) => "Number("@ + debug_number_text(n) + ")"@,
        ValueView::List(items) => "List(["@ + items_debug(items, 0) + "])"@,
        ValueView::Mapping(entries) => "Map({"@ + entries_debug(entries, 0) + "})"@,
    }
}

/// Appends the debug form of a value.
pub fn push_debug(out: &mut Vec<char>, value: &Value)
    ensures
        final(out)@ == old(out)@ + debug_text(value@),
    decreases value,
{
    match value {
        Value::Null => {
            push_str(out, "Null");
        },
        Value::Bool(b) => {
            push_str(out, "Bool(");
            push_str(out, crate::trace::bool_to_str(*b));
            push_str(out, ")");
            assert(out@ =~= old(out)@ + debug_text(value@));
        },
        Value::String(s) => {
            push_str(out, "String(");
            let q = debug_quoted(s.as_str());
            push_str(out, q.as_str());
            push_str(out, ")");
            assert(out@ =~= old(out)@ + debug_text(value@));
        },
        Value::Number(n) => {
            push_str(out, "Number(");
            push_debug_number(out, *n);
            push_str(out, ")");
            assert(out@ =~= old(out)@ + debug_text(value@));
        },
        Value::List(items) => {
            push_str(out, "List([");
            let ghost open = out@;
            let ghost views = value_views(*items);
            let mut i: usize = 0;
            assert(decreases_to!(value => items));
            while i < items.len()
                invariant
                    decreases_to!(value => items),
                    i <= items.len(),
                    views == value_views(*items),
                    out@ + items_debug(views, i as int) == open + items_debug(views, 0),
                decreases items.len() - i,
            {
                let ghost before = out@;
                let item = &items[i];
                assert(decreases_to!(items => item));
                push_debug(out, item);
                if i + 1 < items.len() {
                    push_str(out, ", ");
                }
                assert(views[i as int] == item@);
                assert(out@ + items_debug(views, i as int + 1) =~= before + items_debug(
                    views,
                    i as int,
                ));
                i += 1;
            }
            assert(out@ =~= open + items_debug(views, 0));
            push_str(out, "])");
            assert(out@ =~= old(out)@ + debug_text(value@));
        },
        Value::Mapping(entries) => {
            push_str(out, "Map({");
            let ghost open = out@;
            let ghost views = entry_views(*entries);
            let mut i: usize = 0;
            assert(decreases_to!(value => entries));
            while i < entries.len()
                invariant
                    decreases_to!(value => entries),
                    i <= entries.len(),
                    views == entry_views(*entries),
                    out@ + entries_debug(views, i as int) == open + entries_debug(views, 0),
                decreases entries.len() - i,
            {
                let ghost before = out@;
                let entry = &entries[i];
                assert(decreases_to!(entries => entry));
                let q = debug_quoted(entry.0.as_str());
                push_str(out, q.as_str());
                push_str(out, ": ");
                push_debug(out, &entry.1);
                if i + 1 < entries.len() {
                    push_str(out, ", ");
                }
                assert(views[i as int] == (entry.0@, entry.1@));
                assert(out@ + entries_debug(views, i as int + 1) =~= before + entries_debug(
                    views,
                    i as int,
                ));
                i += 1;
            }
            assert(out@ =~= open + entries_debug(views, 0));
            push_str(out, "})");
            assert(out@ =~= old(out)@ + debug_text(value@));
        },
    }
}

/// The debug form of a value.
pub fn value_to_debug(value: &Value) -> (r: String)
    ensures
        r@ == debug_text(value@),
{
    let mut out: Vec<char> = Vec::new();
    push_debug(&mut out, value);
    assert(out@ =~= debug_text(value@));
    string_of(&out)
}

} // verus!
