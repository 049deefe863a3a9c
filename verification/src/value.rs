//! Runtime values and the comparison kernel.

use crate::assoc::{ascending, has_key, position};
use crate::ast::Comparator;
use crate::number::{bits_eq, bits_le, bits_lt, from_u64, is_nan, num_eq, num_le, num_lt, widened};
use crate::text::{has_substring, str_contains};
use vstd::prelude::*;
use vstd::std_specs::cmp::PartialEqSpecImpl;

verus! {

/// A value of the rule language.
///
/// A number is held as the 64 bits of its binary64 form (see
/// [`crate::number`]). A mapping is a list of entries, whose keys stand in
/// ascending order, each once, in a value that is well formed (see
/// [`well_formed`]); every value that the library makes is.
///
/// `==` on values is the equality of the language (see [`values_equal`]):
/// a value that holds a NaN is not equal to itself.
#[derive(Debug)]
pub enum Value {
    Null,
    Bool(bool),
    String(String),
    Number(u64),
    List(Vec<Value>),
    Mapping(Vec<(String, Value)>),
}

/// The mathematical content of a [`Value`].
pub enum ValueView {
    Null,
    Bool(bool),
    String(Seq<char>),
    Number(u64),
    List(Seq<ValueView>),
    Mapping(Seq<(Seq<char>, ValueView)>),
}

/// The contents of a list of values.
pub open spec fn value_views(items: Vec<Value>) -> Seq<ValueView>
    decreases items, 0int,
{
    Seq::new(
        items.len() as nat,
        |i: int|
            if 0 <= i < items.len() {
                value_view(items[i])
            } else {
                ValueView::Null
            },
    )
}

/// The contents of the entries of a mapping.
pub open spec fn entry_views(entries: Vec<(String, Value)>) -> Seq<(Seq<char>, ValueView)>
    decreases entries, 0int,
{
    Seq::new(
        entries.len() as nat,
        |i: int|
            if 0 <= i < entries.len() {
                (entries[i].0@, value_view(entries[i].1))
            } else {
                (Seq::empty(), ValueView::Null)
            },
    )
}

/// The contents of a value.
pub open spec fn value_view(v: Value) -> ValueView
    decreases v, 1int,
{
    match v {
        Value::Null => ValueView::Null,
        Value::Bool(b) => ValueView::Bool(b),
        Value::String(s) => ValueView::String(s@),
        Value::Number(n) => ValueView::Number(n),
        Value::List(items) => ValueView::List(value_views(items)),
        Value::Mapping(entries) => ValueView::Mapping(entry_views(entries)),
    }
}

impl View for Value {
    type V = ValueView;

    open spec fn view(&self) -> ValueView {
        value_view(*self)
    }
}

/// The contents of an optional value.
pub open spec fn option_view(v: Option<Value>) -> Option<ValueView> {
    match v {
        Some(x) => Some(x@),
        None => None,
    }
}

/// A copy of a list of values.
pub fn clone_values(items: &Vec<Value>) -> (r: Vec<Value>)
    ensures
        value_views(r) == value_views(*items),
    decreases items, 0int,
{
    let mut out: Vec<Value> = Vec::new();
    let mut i: usize = 0;
    while i < items.len()
        invariant
            i <= items.len(),
            out.len() == i,
            forall|j: int| 0 <= j < i ==> out[j]@ == items[j]@,
        decreases items.len() - i,
    {
        let item = &items[i];
        assert(decreases_to!(items => item));
        out.push(clone_value(item));
        i += 1;
    }
    assert(value_views(out) =~= value_views(*items));
    out
}

/// A copy of the entries of a mapping.
pub fn clone_entries(entries: &Vec<(String, Value)>) -> (r: Vec<(String, Value)>)
    ensures
        entry_views(r) == entry_views(*entries),
    decreases entries, 0int,
{
    let mut out: Vec<(String, Value)> = Vec::new();
    let mut i: usize = 0;
    while i < entries.len()
        invariant
            i <= entries.len(),
            out.len() == i,
            forall|j: int| 0 <= j < i ==> out[j].0@ == entries[j].0@ && out[j].1@ == entries[j].1@,
        decreases entries.len() - i,
    {
        let entry = &entries[i];
        assert(decreases_to!(entries => entry));
        out.push((entry.0.clone(), clone_value(&entry.1)));
        i += 1;
    }
    assert(entry_views(out) =~= entry_views(*entries));
    out
}

/// A copy of a value.
pub fn clone_value(v: &Value) -> (r: Value)
    ensures
        r@ == v@,
    decreases v, 1int,
{
    match v {
        Value::Null => Value::Null,
        Value::Bool(b) => Value::Bool(*b),
        Value::String(s) => Value::String(s.clone()),
        Value::Number(n) => Value::Number(*n),
        Value::List(items) => Value::List(clone_values(items)),
        Value::Mapping(entries) => Value::Mapping(clone_entries(entries)),
    }
}

impl Clone for Value {
    fn clone(&self) -> (r: Value)
        ensures
            r@ == self@,
    {
        clone_value(self)
    }
}

impl Value {
    /// The string value with the given text.
    pub fn from_str(s: &str) -> (r: Value)
        ensures
            r@ == ValueView::String(s@),
    {
        Value::String(s.to_owned())
    }

    /// The string value that holds the given string.
    pub fn from_string(s: String) -> (r: Value)
        ensures
            r@ == ValueView::String(s@),
    {
        Value::String(s)
    }

    /// The truth value.
    pub fn from_bool(b: bool) -> (r: Value)
        ensures
            r@ == ValueView::Bool(b),
    {
        Value::Bool(b)
    }

    /// The number that an unsigned integer widens to.
    pub fn from_u64(n: u64) -> (r: Value)
        ensures
            r@ == ValueView::Number(widened(n)),
    {
        Value::Number(from_u64(n))
    }

    /// The number with the given binary64 bits.
    pub fn from_bits(bits: u64) -> (r: Value)
        ensures
            r@ == ValueView::Number(bits),
    {
        Value::Number(bits)
    }

    /// The number that a signed integer widens to.
    pub fn from_i32(n: i32) -> (r: Value)
        ensures
            r@ == ValueView::Number(widened_i32(n)),
    {
        if n >= 0 {
            Value::Number(from_u64(n as u64))
        } else {
            let size: u64 = (-(n as i64)) as u64;
            let bits = from_u64(size);
            proof {
                lemma_small_widens_below_sign(size);
            }
            Value::Number(bits + crate::number::SIGN_BIT)
        }
    }
}

/// The number that a signed 32-bit integer widens to: that of its size,
/// with the sign bit set if it is negative.
pub open spec fn widened_i32(n: i32) -> u64 {
    if n >= 0 {
        widened(n as u64)
    } else {
        (widened((-(n as int)) as u64) + crate::number::SIGN_BIT) as u64
    }
}

/// An integer widens to a number below the sign bit.
pub proof fn lemma_small_widens_below_sign(n: u64)
    ensures
        widened(n) < crate::number::SIGN_BIT,
{
    crate::number::lemma_nearest_is_a_number(n as nat, 1);
}

impl PartialEq for Value {
    fn eq(&self, other: &Value) -> (r: bool) {
        equal_values(self, other)
    }
}

impl PartialEqSpecImpl for Value {
    open spec fn obeys_eq_spec() -> bool {
        true
    }

    open spec fn eq_spec(&self, other: &Value) -> bool {
        values_equal(self@, other@)
    }
}

impl From<bool> for Value {
    fn from(b: bool) -> (r: Value)
        ensures
            r@ == ValueView::Bool(b),
    {
        Value::Bool(b)
    }
}

impl vstd::std_specs::convert::FromSpecImpl<bool> for Value {
    open spec fn obeys_from_spec() -> bool {
        true
    }

    open spec fn from_spec(b: bool) -> Value {
        Value::Bool(b)
    }
}

impl From<&str> for Value {
    fn from(s: &str) -> (r: Value)
        ensures
            r@ == ValueView::String(s@),
    {
        Value::from_str(s)
    }
}

impl vstd::std_specs::convert::FromSpecImpl<&str> for Value {
    open spec fn obeys_from_spec() -> bool {
        false
    }

    open spec fn from_spec(s: &str) -> Value {
        arbitrary()
    }
}

impl From<String> for Value {
    fn from(s: String) -> (r: Value)
        ensures
            r@ == ValueView::String(s@),
    {
        Value::String(s)
    }
}

impl vstd::std_specs::convert::FromSpecImpl<String> for Value {
    open spec fn obeys_from_spec() -> bool {
        true
    }

    open spec fn from_spec(s: String) -> Value {
        Value::String(s)
    }
}

impl From<u64> for Value {
    fn from(n: u64) -> (r: Value)
        ensures
            r@ == ValueView::Number(widened(n)),
    {
        Value::from_u64(n)
    }
}

impl vstd::std_specs::convert::FromSpecImpl<u64> for Value {
    open spec fn obeys_from_spec() -> bool {
        true
    }

    open spec fn from_spec(n: u64) -> Value {
        Value::Number(widened(n))
    }
}

impl From<i32> for Value {
    fn from(n: i32) -> (r: Value)
        ensures
            r@ == ValueView::Number(widened_i32(n)),
    {
        Value::from_i32(n)
    }
}

impl vstd::std_specs::convert::FromSpecImpl<i32> for Value {
    open spec fn obeys_from_spec() -> bool {
        true
    }

    open spec fn from_spec(n: i32) -> Value {
        Value::Number(widened_i32(n))
    }
}

/// Whether a value is well formed: in every mapping that it holds the keys
/// stand in ascending order, so that each key occurs once. The library
/// makes well-formed values only, and equality by key and the sorted
/// rendering of mappings hold of well-formed values.
pub open spec fn well_formed(v: ValueView) -> bool
    decreases v,
{
    match v {
        ValueView::List(items) => forall|i: int|
            0 <= i < items.len() ==> well_formed(#[trigger] items[i]),
        ValueView::Mapping(entries) => ascending(mapping_keys(entries)) && forall|i: int|
            0 <= i < entries.len() ==> well_formed((#[trigger] entries[i]).1),
        _ => true,
    }
}

/// Whether all the values are well formed.
pub open spec fn all_well_formed(items: Seq<ValueView>) -> bool {
    forall|i: int| 0 <= i < items.len() ==> well_formed(#[trigger] items[i])
}

/// The keys of the entries of a mapping, in stored order.
pub open spec fn mapping_keys(entries: Seq<(Seq<char>, ValueView)>) -> Seq<Seq<char>> {
    Seq::new(entries.len(), |i: int| entries[i].0)
}

/// Equality of values. Null equals null only; truth values and strings
/// are equal when they are the same; numbers are equal when neither is NaN
/// and they have the same place on the number line; lists are equal when
/// they have the same length and equal items at each position; mappings
/// are equal when their entries, in ascending key order, have the same keys
/// and equal values. Values of different kinds are never equal.
pub open spec fn values_equal(a: ValueView, b: ValueView) -> bool
    decreases a,
{
    match (a, b) {
        (ValueView::Null, ValueView::Null) => true,
        (ValueView::Bool(x), ValueView::Bool(y)) => x == y,
        (ValueView::String(x), ValueView::String(y)) => x == y,
        (ValueView::Number(x), ValueView::Number(y)) => num_eq(x, y),
        (ValueView::List(x), ValueView::List(y)) => x.len() == y.len() && forall|i: int|
            0 <= i < x.len() ==> values_equal(#[trigger] x[i], y[i]),
        (ValueView::Mapping(x), ValueView::Mapping(y)) => x.len() == y.len() && forall|i: int|
            0 <= i < x.len() ==> (#[trigger] x[i]).0 == y[i].0 && values_equal(x[i].1, y[i].1),
        _ => false,
    }
}

/// Whether some item of the list equals `v`, the item on the left.
pub open spec fn list_has(items: Seq<ValueView>, v: ValueView) -> bool {
    exists|i: int| 0 <= i < items.len() && values_equal(#[trigger] items[i], v)
}

/// Whether `v` equals some item of the list, `v` on the left.
pub open spec fn is_in_list(v: ValueView, items: Seq<ValueView>) -> bool {
    exists|i: int| 0 <= i < items.len() && values_equal(v, #[trigger] items[i])
}

/// Containment: a string contains a substring, a list contains an item
/// equal to the value, a mapping contains a key. Anything else is false.
pub open spec fn contains(left: ValueView, right: ValueView) -> bool {
    match (left, right) {
        (ValueView::String(l), ValueView::String(r)) => has_substring(l, r),
        (ValueView::List(items), v) => list_has(items, v),
        (ValueView::Mapping(entries), ValueView::String(key)) => has_key(
            mapping_keys(entries),
            key,
        ),
        _ => false,
    }
}

/// Membership: a value is in a list that has an item equal to it, a
/// string is in a string that contains it. Anything else is false.
pub open spec fn is_in(left: ValueView, right: ValueView) -> bool {
    match (left, right) {
        (v, ValueView::List(items)) => is_in_list(v, items),
        (ValueView::String(s), ValueView::String(hay)) => has_substring(hay, s),
        _ => false,
    }
}

/// What a comparison gives. The ordering operators hold between two
/// numbers only, and never when one of them is NaN.
pub open spec fn compare(left: ValueView, right: ValueView, op: Comparator) -> bool {
    match op {
        Comparator::Eq => values_equal(left, right),
        Comparator::Ne => !values_equal(left, right),
        Comparator::Contains => contains(left, right),
        Comparator::In => is_in(left, right),
        Comparator::Gt => match (left, right) {
            (ValueView::Number(l), ValueView::Number(r)) => num_lt(r, l),
            _ => false,
        },
        Comparator::Ge => match (left, right) {
            (ValueView::Number(l), ValueView::Number(r)) => num_le(r, l),
            _ => false,
        },
        Comparator::Lt => match (left, right) {
            (ValueView::Number(l), ValueView::Number(r)) => num_lt(l, r),
            _ => false,
        },
        Comparator::Le => match (left, right) {
            (ValueView::Number(l), ValueView::Number(r)) => num_le(l, r),
            _ => false,
        },
    }
}

/// Whether a NaN occurs in the value, at any depth.
pub open spec fn contains_nan(v: ValueView) -> bool
    decreases v,
{
    match v {
        ValueView::Number(n) => is_nan(n),
        ValueView::List(items) => exists|i: int|
            0 <= i < items.len() && contains_nan(#[trigger] items[i]),
        ValueView::Mapping(entries) => exists|i: int|
            0 <= i < entries.len() && contains_nan((#[trigger] entries[i]).1),
        _ => false,
    }
}

/// A value equals itself exactly when no NaN occurs in it, and `!=` is the
/// negation of `==`.
pub proof fn lemma_equal_to_itself(v: ValueView)
    ensures
        compare(v, v, Comparator::Eq) <==> !contains_nan(v),
        compare(v, v, Comparator::Ne) <==> !compare(v, v, Comparator::Eq),
    decreases v,
{
    match v {
        ValueView::List(items) => {
            assert forall|i: int| 0 <= i < items.len() implies (values_equal(
                #[trigger] items[i],
                items[i],
            ) <==> !contains_nan(items[i])) by {
                lemma_equal_to_itself(items[i]);
            }
        },
        ValueView::Mapping(entries) => {
            assert forall|i: int| 0 <= i < entries.len() implies (values_equal(
                (#[trigger] entries[i]).1,
                entries[i].1,
            ) <==> !contains_nan(entries[i].1)) by {
                lemma_equal_to_itself(entries[i].1);
            }
        },
        _ => {},
    }
}

/// `!=` is the negation of `==` on every pair of values.
pub proof fn lemma_ne_negates_eq(x: ValueView, y: ValueView)
    ensures
        compare(x, y, Comparator::Ne) == !compare(x, y, Comparator::Eq),
{
}

/// The ordering operators are false unless both sides are numbers.
pub proof fn lemma_order_needs_numbers(x: ValueView, y: ValueView)
    requires
        !(x is Number && y is Number),
    ensures
        !compare(x, y, Comparator::Gt),
        !compare(x, y, Comparator::Ge),
        !compare(x, y, Comparator::Lt),
        !compare(x, y, Comparator::Le),
{
}

/// A comparison with a NaN on either side is false, but for `!=`.
pub proof fn lemma_nan_compares_false(x: ValueView, y: ValueView, op: Comparator)
    requires
        x is Number,
        y is Number,
        is_nan(x->Number_0) || is_nan(y->Number_0),
        op != Comparator::Ne,
    ensures
        !compare(x, y, op),
{
}

/// Executable form of [`values_equal`].
pub fn equal_values(a: &Value, b: &Value) -> (r: bool)
    ensures
        r == values_equal(a@, b@),
    decreases a,
{
    match (a, b) {
        (Value::Null, Value::Null) => true,
        (Value::Bool(x), Value::Bool(y)) => *x == *y,
        (Value::String(x), Value::String(y)) => *x == *y,
        (Value::Number(x), Value::Number(y)) => bits_eq(*x, *y),
        (Value::List(x), Value::List(y)) => {
            if x.len() != y.len() {
                return false;
            }
            let mut i: usize = 0;
            assert(decreases_to!(a => x));
            while i < x.len()
                invariant
                    decreases_to!(a => x),
                    i <= x.len(),
                    x.len() == y.len(),
                    a@ == ValueView::List(value_views(*x)),
                    b@ == ValueView::List(value_views(*y)),
                    forall|j: int| 0 <= j < i ==> values_equal(#[trigger] x[j]@, y[j]@),
                decreases x.len() - i,
            {
                let item = &x[i];
                assert(decreases_to!(x => item));
                if !equal_values(item, &y[i]) {
                    assert(!values_equal(value_views(*x)[i as int], value_views(*y)[i as int]));
                    return false;
                }
                i += 1;
            }
            assert forall|j: int| 0 <= j < value_views(*x).len() implies values_equal(
                #[trigger] value_views(*x)[j],
                value_views(*y)[j],
            ) by {
                assert(values_equal(x[j]@, y[j]@));
            }
            true
        },
        (Value::Mapping(x), Value::Mapping(y)) => {
            if x.len() != y.len() {
                return false;
            }
            let mut i: usize = 0;
            assert(decreases_to!(a => x));
            while i < x.len()
                invariant
                    decreases_to!(a => x),
                    i <= x.len(),
                    x.len() == y.len(),
                    a@ == ValueView::Mapping(entry_views(*x)),
                    b@ == ValueView::Mapping(entry_views(*y)),
                    forall|j: int|
                        0 <= j < i ==> (#[trigger] x[j]).0@ == y[j].0@ && values_equal(
                            x[j].1@,
                            y[j].1@,
                        ),
                decreases x.len() - i,
            {
                let entry = &x[i];
                assert(decreases_to!(x => entry));
                if entry.0 != y[i].0 || !equal_values(&entry.1, &y[i].1) {
                    assert(!(entry_views(*x)[i as int].0 == entry_views(*y)[i as int].0
                        && values_equal(entry_views(*x)[i as int].1, entry_views(*y)[i as int].1)));
                    return false;
                }
                i += 1;
            }
            assert forall|j: int| 0 <= j < entry_views(*x).len() implies (#[trigger] entry_views(
                *x,
            )[j]).0 == entry_views(*y)[j].0 && values_equal(
                entry_views(*x)[j].1,
                entry_views(*y)[j].1,
            ) by {
                assert(x[j].0@ == y[j].0@);
            }
            true
        },
        _ => false,
    }
}

/// Executable form of [`list_has`].
pub fn list_contains(items: &Vec<Value>, v: &Value) -> (r: bool)
    ensures
        r == list_has(value_views(*items), v@),
{
    let mut i: usize = 0;
    while i < items.len()
        invariant
            i <= items.len(),
            forall|j: int| 0 <= j < i ==> !values_equal(#[trigger] value_views(*items)[j], v@),
        decreases items.len() - i,
    {
        if equal_values(&items[i], v) {
            assert(values_equal(value_views(*items)[i as int], v@));
            return true;
        }
        i += 1;
    }
    false
}

/// Executable form of [`is_in_list`].
pub fn in_list(v: &Value, items: &Vec<Value>) -> (r: bool)
    ensures
        r == is_in_list(v@, value_views(*items)),
{
    let mut i: usize = 0;
    while i < items.len()
        invariant
            i <= items.len(),
            forall|j: int| 0 <= j < i ==> !values_equal(v@, #[trigger] value_views(*items)[j]),
        decreases items.len() - i,
    {
        if equal_values(v, &items[i]) {
            assert(values_equal(v@, value_views(*items)[i as int]));
            return true;
        }
        i += 1;
    }
    false
}

/// Compares two values under an operator.
pub fn compare_values(left: &Value, right: &Value, op: Comparator) -> (r: bool)
    ensures
        r == compare(left@, right@, op),
{
    match op {
        Comparator::Eq => equal_values(left, right),
        Comparator::Ne => !equal_values(left, right),
        Comparator::Contains => match (left, right) {
            (Value::String(l), Value::String(r)) => str_contains(l.as_str(), r.as_str()),
            (Value::List(items), v) => list_contains(items, v),
            (Value::Mapping(entries), Value::String(key)) => {
                assert(crate::assoc::keys_of(entries@) =~= mapping_keys(entry_views(*entries)));
                position(entries, key.as_str()).is_some()
            },
            _ => false,
        },
        Comparator::In => match (left, right) {
            (v, Value::List(items)) => in_list(v, items),
            (Value::String(s), Value::String(hay)) => str_contains(hay.as_str(), s.as_str()),
            _ => false,
        },
        Comparator::Gt => match (left, right) {
            (Value::Number(l), Value::Number(r)) => bits_lt(*r, *l),
            _ => false,
        },
        Comparator::Ge => match (left, right) {
            (Value::Number(l), Value::Number(r)) => bits_le(*r, *l),
            _ => false,
        },
        Comparator::Lt => match (left, right) {
            (Value::Number(l), Value::Number(r)) => bits_lt(*l, *r),
            _ => false,
        },
        Comparator::Le => match (left, right) {
            (Value::Number(l), Value::Number(r)) => bits_le(*l, *r),
            _ => false,
        },
    }
}

} // verus!
