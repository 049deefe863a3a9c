//! Declarative schemas: named types with typed fields, and their parser.

use crate::assoc::{ascending, has_key, key_index, keys_of, place, placed, position};
use crate::text::{
    chars_are, chars_of, find_char, find_from, has_prefix, lemma_skip_ws_bounds,
    lemma_trim_end_bounds, lines_of, push_chars, push_str, skip_ws, slice_of, split_lines,
    split_words, starts_with, string_of, text_lt, texts, trim, trimmed, words_of,
};
use vstd::prelude::*;

pub mod package;
pub mod registry;

verus! {

/// The type of a field.
#[derive(Debug, PartialEq, Eq)]
pub enum FieldType {
    Bool,
    String,
    Number,
    List(Box<FieldType>),
    Mapping(Box<FieldType>),
    /// A reference to another type, by name.
    TypeRef(String),
}

/// The mathematical content of a [`FieldType`].
pub enum FieldTypeView {
    Bool,
    String,
    Number,
    List(Box<FieldTypeView>),
    Mapping(Box<FieldTypeView>),
    TypeRef(Seq<char>),
}

impl View for FieldType {
    type V = FieldTypeView;

    open spec fn view(&self) -> FieldTypeView
        decreases self,
    {
        match self {
            FieldType::Bool => FieldTypeView::Bool,
            FieldType::String => FieldTypeView::String,
            FieldType::Number => FieldTypeView::Number,
            FieldType::List(inner) => FieldTypeView::List(Box::new((**inner).view())),
            FieldType::Mapping(inner) => FieldTypeView::Mapping(Box::new((**inner).view())),
            FieldType::TypeRef(name) => FieldTypeView::TypeRef(name@),
        }
    }
}

impl Clone for FieldType {
    fn clone(&self) -> (r: FieldType)
        ensures
            r@ == self@,
        decreases self,
    {
        match self {
            FieldType::Bool => FieldType::Bool,
            FieldType::String => FieldType::String,
            FieldType::Number => FieldType::Number,
            FieldType::List(inner) => FieldType::List(Box::new((**inner).clone())),
            FieldType::Mapping(inner) => FieldType::Mapping(Box::new((**inner).clone())),
            FieldType::TypeRef(name) => FieldType::TypeRef(name.clone()),
        }
    }
}

/// One field of a type.
#[derive(Debug, PartialEq, Eq)]
pub struct FieldDef {
    pub name: String,
    pub field_type: FieldType,
    pub optional: bool,
    pub description: Option<String>,
}

/// The mathematical content of a [`FieldDef`].
pub struct FieldDefView {
    pub name: Seq<char>,
    pub field_type: FieldTypeView,
    pub optional: bool,
    pub description: Option<Seq<char>>,
}

/// The content of an optional text.
pub open spec fn text_opt(s: Option<String>) -> Option<Seq<char>> {
    match s {
        Some(t) => Some(t@),
        None => None,
    }
}

/// A copy of an optional text.
pub fn clone_text_opt(s: &Option<String>) -> (r: Option<String>)
    ensures
        text_opt(r) == text_opt(*s),
{
    match s {
        Some(t) => Some(t.clone()),
        None => None,
    }
}

impl View for FieldDef {
    type V = FieldDefView;

    open spec fn view(&self) -> FieldDefView {
        FieldDefView {
            name: self.name@,
            field_type: self.field_type@,
            optional: self.optional,
            description: text_opt(self.description),
        }
    }
}

impl Clone for FieldDef {
    fn clone(&self) -> (r: FieldDef)
        ensures
            r@ == self@,
    {
        FieldDef {
            name: self.name.clone(),
            field_type: self.field_type.clone(),
            optional: self.optional,
            description: clone_text_opt(&self.description),
        }
    }
}

/// A named type: an ordered list of fields.
#[derive(Debug, PartialEq, Eq)]
pub struct TypeDef {
    pub name: String,
    pub fields: Vec<FieldDef>,
    pub description: Option<String>,
}

/// The mathematical content of a [`TypeDef`].
pub struct TypeDefView {
    pub name: Seq<char>,
    pub fields: Seq<FieldDefView>,
    pub description: Option<Seq<char>>,
}

/// The contents of a list of fields.
pub open spec fn field_views(fields: Seq<FieldDef>) -> Seq<FieldDefView> {
    Seq::new(fields.len(), |i: int| fields[i]@)
}

impl View for TypeDef {
    type V = TypeDefView;

    open spec fn view(&self) -> TypeDefView {
        TypeDefView {
            name: self.name@,
            fields: field_views(self.fields@),
            description: text_opt(self.description),
        }
    }
}

impl Clone for TypeDef {
    fn clone(&self) -> (r: TypeDef)
        ensures
            r@ == self@,
    {
        let mut fields: Vec<FieldDef> = Vec::new();
        let mut i: usize = 0;
        while i < self.fields.len()
            invariant
                i <= self.fields.len(),
                fields.len() == i,
                forall|j: int| 0 <= j < i ==> fields[j]@ == self.fields[j]@,
            decreases self.fields.len() - i,
        {
            fields.push(self.fields[i].clone());
            i += 1;
        }
        assert(field_views(fields@) =~= field_views(self.fields@));
        TypeDef {
            name: self.name.clone(),
            fields,
            description: clone_text_opt(&self.description),
        }
    }
}

/// A table of types by name, as a schema and a type environment hold it.
pub type TypeTable = Seq<(Seq<char>, TypeDefView)>;

/// The contents of a stored table of types.
pub open spec fn table_view(types: Seq<(String, TypeDef)>) -> TypeTable {
    Seq::new(types.len(), |i: int| (types[i].0@, types[i].1@))
}

/// The names under which a table stores its types, in stored order.
pub open spec fn table_keys(table: TypeTable) -> Seq<Seq<char>> {
    Seq::new(table.len(), |i: int| table[i].0)
}

/// The first type name that a field type refers to and `keys` lacks.
pub open spec fn undefined_in_type(ft: FieldTypeView, keys: Seq<Seq<char>>) -> Option<Seq<char>>
    decreases ft,
{
    match ft {
        FieldTypeView::TypeRef(name) => if has_key(keys, name) {
            None
        } else {
            Some(name)
        },
        FieldTypeView::List(inner) => undefined_in_type(*inner, keys),
        FieldTypeView::Mapping(inner) => undefined_in_type(*inner, keys),
        _ => None,
    }
}

/// The first undefined reference among the fields from position `from` on.
pub open spec fn undefined_in_fields(
    fields: Seq<FieldDefView>,
    from: int,
    keys: Seq<Seq<char>>,
) -> Option<Seq<char>>
    decreases fields.len() - from,
{
    if from < 0 || from >= fields.len() {
        None
    } else {
        match undefined_in_type(fields[from].field_type, keys) {
            Some(name) => Some(name),
            None => undefined_in_fields(fields, from + 1, keys),
        }
    }
}

/// The first undefined reference in the table from position `from` on, in
/// stored order, with the key of the type that holds it.
pub open spec fn undefined_in_table(table: TypeTable, from: int, keys: Seq<Seq<char>>) -> Option<
    (Seq<char>, Seq<char>),
>
    decreases table.len() - from,
{
    if from < 0 || from >= table.len() {
        None
    } else {
        match undefined_in_fields(table[from].1.fields, 0, keys) {
            Some(name) => Some((name, table[from].0)),
            None => undefined_in_table(table, from + 1, keys),
        }
    }
}

/// The first reference in the table to a type that the table lacks.
pub open spec fn first_undefined(table: TypeTable) -> Option<(Seq<char>, Seq<char>)> {
    undefined_in_table(table, 0, table_keys(table))
}

/// Executable form of [`undefined_in_type`].
pub fn check_field_type(ft: &FieldType, types: &Vec<(String, TypeDef)>) -> (r: Option<String>)
    ensures
        text_opt(r) == undefined_in_type(ft@, table_keys(table_view(types@))),
    decreases ft,
{
    assert(keys_of(types@) =~= table_keys(table_view(types@)));
    match ft {
        FieldType::TypeRef(name) => {
            match position(types, name.as_str()) {
                Some(_) => None,
                None => Some(name.clone()),
            }
        },
        FieldType::List(inner) => check_field_type(inner, types),
        FieldType::Mapping(inner) => check_field_type(inner, types),
        _ => None,
    }
}

/// Executable form of [`undefined_in_table`], over the whole table.
pub fn check_table(types: &Vec<(String, TypeDef)>) -> (r: Option<(String, String)>)
    ensures
        match r {
            Some((name, holder)) => first_undefined(table_view(types@)) == Some(
                (name@, holder@),
            ),
            None => first_undefined(table_view(types@)) is None,
        },
{
    let ghost table = table_view(types@);
    let ghost keys = table_keys(table);
    let mut i: usize = 0;
    while i < types.len()
        invariant
            i <= types.len(),
            table == table_view(types@),
            keys == table_keys(table),
            undefined_in_table(table, 0, keys) == undefined_in_table(table, i as int, keys),
        decreases types.len() - i,
    {
        let fields = &types[i].1.fields;
        let mut j: usize = 0;
        while j < fields.len()
            invariant
                i < types.len(),
                j <= fields.len(),
                fields == &types[i as int].1.fields,
                table == table_view(types@),
                keys == table_keys(table),
                undefined_in_table(table, 0, keys) == undefined_in_table(table, i as int, keys),
                undefined_in_fields(table[i as int].1.fields, 0, keys) == undefined_in_fields(
                    table[i as int].1.fields,
                    j as int,
                    keys,
                ),
            decreases fields.len() - j,
        {
            assert(table[i as int].1.fields[j as int] == fields[j as int]@);
            match check_field_type(&fields[j].field_type, types) {
                Some(name) => {
                    return Some((name, types[i].0.clone()));
                },
                None => {},
            }
            j += 1;
        }
        i += 1;
    }
    None
}

/// All the types of one domain, by name.
#[derive(Debug, PartialEq, Eq)]
pub struct Schema {
    /// The types, in ascending order of their names, each once, in a
    /// schema that is well formed (see [`Schema::well_formed`]).
    pub types: Vec<(String, TypeDef)>,
}

impl View for Schema {
    type V = TypeTable;

    open spec fn view(&self) -> TypeTable {
        table_view(self.types@)
    }
}

impl Clone for Schema {
    fn clone(&self) -> (r: Schema)
        ensures
            r@ == self@,
    {
        Schema { types: clone_table(&self.types) }
    }
}

/// A copy of a stored table of types.
pub fn clone_table(types: &Vec<(String, TypeDef)>) -> (r: Vec<(String, TypeDef)>)
    ensures
        table_view(r@) == table_view(types@),
{
    let mut out: Vec<(String, TypeDef)> = Vec::new();
    let mut i: usize = 0;
    while i < types.len()
        invariant
            i <= types.len(),
            out.len() == i,
            forall|j: int| 0 <= j < i ==> out[j].0@ == types[j].0@ && out[j].1@ == types[j].1@,
        decreases types.len() - i,
    {
        out.push((types[i].0.clone(), types[i].1.clone()));
        i += 1;
    }
    assert(table_view(out@) =~= table_view(types@));
    out
}

/// The table after `def` is placed under `key`.
pub open spec fn table_with(table: TypeTable, key: Seq<char>, def: TypeDefView) -> TypeTable {
    placed(table, table_keys(table), key, (key, def))
}

/// Whether the names of a table stand in ascending order, so that each
/// occurs once: the invariant of a schema and of a type environment.
pub open spec fn table_ordered(table: TypeTable) -> bool {
    ascending(table_keys(table))
}

/// Placing a type into an ordered table gives an ordered table, which is
/// longer by one unless the table held the name.
pub proof fn lemma_table_with_ordered(table: TypeTable, key: Seq<char>, def: TypeDefView)
    requires
        table_ordered(table),
    ensures
        table_ordered(table_with(table, key, def)),
        table_with(table, key, def).len() == table.len() + (if has_key(table_keys(table), key) {
            0int
        } else {
            1int
        }),
{
    let keys = table_keys(table);
    crate::assoc::lemma_placed_keys(keys, key);
    crate::assoc::lemma_lower_bound(keys, key, 0);
    crate::assoc::lemma_key_index(keys, key, 0);
    assert(table_keys(table_with(table, key, def)) =~= placed(keys, keys, key, key));
    let p = crate::assoc::lower_bound(keys, key, 0);
    if p < keys.len() && keys[p] == key {
    } else {
        let i = key_index(keys, key, 0);
        if i < keys.len() {
            if i < p {
                assert(text_lt(keys[i], key));
                crate::text::lemma_text_lt_irreflexive(key);
            } else if i > p {
                assert(text_lt(keys[p], keys[i]));
            }
        }
    }
}

/// Places a type into a stored table under `key`.
pub fn place_type(types: &mut Vec<(String, TypeDef)>, key: String, def: TypeDef)
    ensures
        table_view(final(types)@) == table_with(table_view(old(types)@), key@, def@),
{
    assert(keys_of(types@) =~= table_keys(table_view(types@)));
    proof {
        crate::assoc::lemma_lower_bound(keys_of(types@), key@, 0);
    }
    place(types, key, def);
    assert(table_view(types@) =~= table_with(table_view(old(types)@), key@, def@));
}

/// The type stored under `name`, if there is one.
pub open spec fn table_get(table: TypeTable, name: Seq<char>) -> Option<TypeDefView> {
    if has_key(table_keys(table), name) {
        Some(table[key_index(table_keys(table), name, 0)].1)
    } else {
        None
    }
}

/// Looks a type up in a stored table.
pub fn find_type<'a>(types: &'a Vec<(String, TypeDef)>, name: &str) -> (r: Option<&'a TypeDef>)
    ensures
        match r {
            Some(def) => table_get(table_view(types@), name@) == Some(def@),
            None => table_get(table_view(types@), name@) is None,
        },
{
    assert(keys_of(types@) =~= table_keys(table_view(types@)));
    match position(types, name) {
        Some(i) => Some(&types[i].1),
        None => None,
    }
}

impl Schema {
    /// A schema without types.
    pub fn new() -> (r: Schema)
        ensures
            r@ == Seq::<(Seq<char>, TypeDefView)>::empty(),
            r.well_formed(),
    {
        let r = Schema { types: Vec::new() };
        assert(r@ =~= Seq::<(Seq<char>, TypeDefView)>::empty());
        r
    }

    /// Whether the schema is well formed: its names stand in ascending
    /// order, each once.
    pub open spec fn well_formed(&self) -> bool {
        table_ordered(self@)
    }

    /// Adds a type under its name, replacing a type of the same name.
    pub fn add_type(&mut self, type_def: TypeDef)
        requires
            old(self).well_formed(),
        ensures
            final(self)@ == table_with(old(self)@, type_def.name@, type_def@),
            final(self).well_formed(),
            final(self).types.len() == old(self).types.len() + (if has_key(
                table_keys(old(self)@),
                type_def.name@,
            ) {
                0int
            } else {
                1int
            }),
    {
        proof {
            lemma_table_with_ordered(self@, type_def.name@, type_def@);
        }
        let key = type_def.name.clone();
        place_type(&mut self.types, key, type_def);
    }

    /// The type of the given name, if the schema has one.
    pub fn get_type(&self, name: &str) -> (r: Option<&TypeDef>)
        ensures
            match r {
                Some(def) => table_get(self@, name@) == Some(def@),
                None => table_get(self@, name@) is None,
            },
    {
        find_type(&self.types, name)
    }

    /// Checks that every type reference names a type of this schema. The
    /// error names the first reference that does not.
    pub fn validate(&self) -> (r: Result<(), String>)
        ensures
            match first_undefined(self@) {
                Some((name, _)) => r is Err && r->Err_0@ == "Undefined type reference: "@ + name,
                None => r is Ok,
            },
    {
        match check_table(&self.types) {
            Some((name, _)) => {
                let mut out: Vec<char> = Vec::new();
                push_str(&mut out, "Undefined type reference: ");
                push_str(&mut out, name.as_str());
                assert(out@ =~= "Undefined type reference: "@ + name@);
                Err(string_of(&out))
            },
            None => Ok(()),
        }
    }
}

impl Default for Schema {
    fn default() -> (r: Schema)
        ensures
            r@ == Seq::<(Seq<char>, TypeDefView)>::empty(),
    {
        Schema::new()
    }
}

/// The field type that a type expression denotes: `List<T>` and `Map<T>`
/// around another type expression, the primitive names, or else a reference
/// to the type of that name.
pub open spec fn field_type_of(s: Seq<char>) -> FieldTypeView
    decreases s.len(),
{
    let t = trimmed(s);
    if t.len() > 0 && has_prefix(t, "List<"@) && t.last() == '>' {
        proof {
            lemma_inner_shorter(s);
        }
        FieldTypeView::List(Box::new(field_type_of(t.subrange(5, t.len() - 1))))
    } else if t.len() > 0 && has_prefix(t, "Map<"@) && t.last() == '>' {
        proof {
            lemma_inner_shorter(s);
        }
        FieldTypeView::Mapping(Box::new(field_type_of(t.subrange(4, t.len() - 1))))
    } else if t == "Bool"@ || t == "Boolean"@ {
        FieldTypeView::Bool
    } else if t == "String"@ {
        FieldTypeView::String
    } else if t == "Number"@ || t == "Float"@ || t == "f64"@ {
        FieldTypeView::Number
    } else {
        FieldTypeView::TypeRef(t)
    }
}

/// Trimming does not lengthen a text.
pub proof fn lemma_trimmed_len(s: Seq<char>)
    ensures
        trimmed(s).len() <= s.len(),
{
    lemma_skip_ws_bounds(s, 0);
    lemma_trim_end_bounds(s, skip_ws(s, 0), s.len() as int);
}

/// A trimmed text that ends in `>` and begins a list or a map type is
/// longer than the opening of that type.
pub proof fn lemma_inner_shorter(s: Seq<char>)
    requires
        trimmed(s).len() > 0,
        trimmed(s).last() == '>',
    ensures
        trimmed(s).len() <= s.len(),
        has_prefix(trimmed(s), "List<"@) ==> 5 < trimmed(s).len(),
        has_prefix(trimmed(s), "Map<"@) ==> 4 < trimmed(s).len(),
{
    reveal_strlit("List<");
    reveal_strlit("Map<");
    lemma_trimmed_len(s);
    let t = trimmed(s);
    if has_prefix(t, "List<"@) && t.len() == 5 {
        assert(t.subrange(0, 5)[4] == '<');
    }
    if has_prefix(t, "Map<"@) && t.len() == 4 {
        assert(t.subrange(0, 4)[3] == '<');
    }
}

/// Executable form of [`field_type_of`].
pub fn parse_field_type(type_str: &Vec<char>) -> (r: FieldType)
    ensures
        r@ == field_type_of(type_str@),
    decreases type_str.len(),
{
    let t = trim(type_str);
    let n = t.len();
    proof {
        reveal_strlit("List<");
        reveal_strlit("Map<");
        lemma_trimmed_len(type_str@);
    }
    if n > 0 && starts_with(&t, "List<") && t[n - 1] == '>' {
        proof {
            lemma_inner_shorter(type_str@);
        }
        let inner = slice_of(&t, 5, n - 1);
        FieldType::List(Box::new(parse_field_type(&inner)))
    } else if n > 0 && starts_with(&t, "Map<") && t[n - 1] == '>' {
        proof {
            lemma_inner_shorter(type_str@);
        }
        let inner = slice_of(&t, 4, n - 1);
        FieldType::Mapping(Box::new(parse_field_type(&inner)))
    } else if chars_are(&t, "Bool") || chars_are(&t, "Boolean") {
        FieldType::Bool
    } else if chars_are(&t, "String") {
        FieldType::String
    } else if chars_are(&t, "Number") || chars_are(&t, "Float") || chars_are(&t, "f64") {
        FieldType::Number
    } else {
        FieldType::TypeRef(string_of(&t))
    }
}

/// What the parser holds between two lines of a schema text.
pub struct SchemaScan {
    /// The types closed so far.
    pub types: TypeTable,
    /// The type whose block is open.
    pub current: Option<TypeDefView>,
    /// Whether the scan is inside a block.
    pub in_block: bool,
    /// The first type name that a second block was closed for.
    pub repeated: Option<Seq<char>>,
}

/// The table with the open type, if any, added to it.
pub open spec fn closed_types(types: TypeTable, current: Option<TypeDefView>) -> TypeTable {
    match current {
        Some(def) => table_with(types, def.name, def),
        None => types,
    }
}

/// The first repeated type name once the open type, if any, is closed: the
/// one known so far, or else the name of the open type if the table holds
/// a type of that name already.
pub open spec fn repeated_with(
    types: TypeTable,
    current: Option<TypeDefView>,
    repeated: Option<Seq<char>>,
) -> Option<Seq<char>> {
    match (repeated, current) {
        (Some(_), _) => repeated,
        (None, Some(def)) => if table_get(types, def.name) is Some {
            Some(def.name)
        } else {
            None
        },
        (None, None) => None,
    }
}

/// The end of the text once trailing commas are dropped.
pub open spec fn comma_end(s: Seq<char>, to: int) -> int
    decreases to,
{
    if 0 < to <= s.len() && s[to - 1] == ',' {
        comma_end(s, to - 1)
    } else {
        to
    }
}

/// The end of the text once trailing semicolons are dropped.
pub open spec fn semicolon_end(s: Seq<char>, to: int) -> int
    decreases to,
{
    if 0 < to <= s.len() && s[to - 1] == ';' {
        semicolon_end(s, to - 1)
    } else {
        to
    }
}

/// The field that a field line declares: the text before the first colon
/// is the name, optional if it ends in `?`; the text after it is the type.
pub open spec fn field_of_line(fl: Seq<char>, colon: int) -> FieldDefView {
    let raw = fl.subrange(0, colon);
    let optional = raw.len() > 0 && raw.last() == '?';
    let name = if optional {
        raw.drop_last()
    } else {
        raw
    };
    FieldDefView {
        name: trimmed(name),
        field_type: field_type_of(fl.subrange(colon + 1, fl.len() as int)),
        optional,
        description: None,
    }
}

/// The effect of one line, already trimmed, on the scan: comments and blank
/// lines are skipped, `type Name {` opens a block, `}` closes it, and any
/// other line inside a block declares a field.
pub open spec fn scan_line(st: SchemaScan, line: Seq<char>) -> Result<SchemaScan, Seq<char>> {
    if line.len() == 0 || has_prefix(line, "//"@) || has_prefix(line, "#"@) {
        Ok(st)
    } else if has_prefix(line, "type "@) {
        let parts = words_of(line);
        if parts.len() < 3 || parts[2] != "{"@ {
            Err("Invalid type definition: "@ + line)
        } else {
            Ok(
                SchemaScan {
                    types: closed_types(st.types, st.current),
                    current: Some(
                        TypeDefView { name: parts[1], fields: Seq::empty(), description: None },
                    ),
                    in_block: true,
                    repeated: repeated_with(st.types, st.current, st.repeated),
                },
            )
        }
    } else if line == "}"@ {
        Ok(
            SchemaScan {
                types: closed_types(st.types, st.current),
                current: None,
                in_block: false,
                repeated: repeated_with(st.types, st.current, st.repeated),
            },
        )
    } else if st.in_block && st.current is Some {
        let fl = line.subrange(0, comma_end(line, line.len() as int));
        let colon = find_from(fl, ':', 0);
        if colon >= fl.len() {
            Err("Invalid field definition: "@ + line)
        } else {
            let def = st.current->0;
            Ok(
                SchemaScan {
                    types: st.types,
                    current: Some(
                        TypeDefView {
                            name: def.name,
                            fields: def.fields.push(field_of_line(fl, colon)),
                            description: def.description,
                        },
                    ),
                    in_block: true,
                    repeated: st.repeated,
                },
            )
        }
    } else {
        Ok(st)
    }
}

/// The scan after the lines from position `from` on, or the first error.
pub open spec fn scan_lines(lines: Seq<Seq<char>>, from: int, st: SchemaScan) -> Result<
    SchemaScan,
    Seq<char>,
>
    decreases lines.len() - from,
{
    if from < 0 || from >= lines.len() {
        Ok(st)
    } else {
        match scan_line(st, trimmed(lines[from])) {
            Ok(next) => scan_lines(lines, from + 1, next),
            Err(e) => Err(e),
        }
    }
}

/// The scan before the first line of a text.
pub open spec fn scan_start() -> SchemaScan {
    SchemaScan { types: Seq::empty(), current: None, in_block: false, repeated: None }
}

/// The first type name that a schema text defines a second time, if its
/// lines are well formed and it defines one twice.
pub open spec fn repeated_in(input: Seq<char>) -> Option<Seq<char>> {
    match scan_lines(lines_of(input), 0, scan_start()) {
        Err(_) => None,
        Ok(st) => repeated_with(st.types, st.current, st.repeated),
    }
}

/// The schema that a schema text denotes, or the message of the first
/// error: a malformed line, or, once all lines are read, a reference to a
/// type that the text does not define. Where the text defines a type
/// twice, the schema holds the later definition.
pub open spec fn schema_of(input: Seq<char>) -> Result<TypeTable, Seq<char>> {
    let start = scan_start();
    match scan_lines(lines_of(input), 0, start) {
        Err(e) => Err(e),
        Ok(st) => {
            let table = closed_types(st.types, st.current);
            match first_undefined(table) {
                Some((name, _)) => Err("Undefined type reference: "@ + name),
                None => Ok(table),
            }
        },
    }
}

/// The scan that the parser's variables stand for.
pub open spec fn scan_state(
    schema: Schema,
    current: Option<TypeDef>,
    in_block: bool,
    repeated: Option<String>,
) -> SchemaScan {
    SchemaScan {
        types: schema@,
        current: match current {
            Some(def) => Some(def@),
            None => None,
        },
        in_block,
        repeated: text_opt(repeated),
    }
}

/// Adds the type that is being read, if there is one, to the schema, and
/// returns the first repeated type name as it then stands.
fn close_current(schema: &mut Schema, current: Option<TypeDef>, repeated: Option<String>) -> (r:
    Option<String>)
    requires
        old(schema).well_formed(),
    ensures
        final(schema).well_formed(),
        final(schema)@ == closed_types(
            old(schema)@,
            match current {
                Some(def) => Some(def@),
                None => None,
            },
        ),
        text_opt(r) == repeated_with(
            old(schema)@,
            match current {
                Some(def) => Some(def@),
                None => None,
            },
            text_opt(repeated),
        ),
{
    match current {
        Some(def) => {
            let again = repeated.is_none() && schema.get_type(def.name.as_str()).is_some();
            let r = if again {
                Some(def.name.clone())
            } else {
                repeated
            };
            schema.add_type(def);
            r
        },
        None => repeated,
    }
}

/// A message that ends with the text of a line.
fn message_with(prefix: &str, line: &Vec<char>) -> (r: String)
    ensures
        r@ == prefix@ + line@,
{
    let mut out: Vec<char> = Vec::new();
    push_str(&mut out, prefix);
    push_chars(&mut out, line);
    assert(out@ =~= prefix@ + line@);
    string_of(&out)
}

/// The field that a line declares, whose colon stands at `colon`.
fn parse_field_line(fl: &Vec<char>, colon: usize) -> (r: FieldDef)
    requires
        colon < fl.len(),
    ensures
        r@ == field_of_line(fl@, colon as int),
{
    let optional = colon > 0 && fl[colon - 1] == '?';
    let name_end: usize = if optional {
        colon - 1
    } else {
        colon
    };
    let raw_name = slice_of(fl, 0, name_end);
    let rest = slice_of(fl, colon + 1, fl.len());
    assert(fl@.subrange(0, colon as int).len() == colon);
    if optional {
        assert(fl@.subrange(0, colon as int).last() == fl@[colon - 1]);
        assert(raw_name@ =~= fl@.subrange(0, colon as int).drop_last());
    }
    FieldDef {
        name: string_of(&trim(&raw_name)),
        field_type: parse_field_type(&rest),
        optional,
        description: None,
    }
}

/// Parses a schema text. Returns the schema that [`schema_of`] gives for
/// it, or the message of its first error.
pub fn parse_schema(input: &str) -> (r: Result<Schema, String>)
    ensures
        match schema_of(input@) {
            Ok(table) => r is Ok && r->Ok_0@ == table && r->Ok_0.well_formed(),
            Err(message) => r is Err && r->Err_0@ == message,
        },
{
    match read_schema(input) {
        Ok((schema, _)) => Ok(schema),
        Err(e) => Err(e),
    }
}

/// Parses a schema text as [`parse_schema`] does, and returns with the
/// schema the first type name that the text defines a second time, if
/// there is one.
pub fn read_schema(input: &str) -> (r: Result<(Schema, Option<String>), String>)
    ensures
        match schema_of(input@) {
            Ok(table) => r is Ok && r->Ok_0.0@ == table && r->Ok_0.0.well_formed() && text_opt(
                r->Ok_0.1,
            ) == repeated_in(input@),
            Err(message) => r is Err && r->Err_0@ == message,
        },
{
    let chars = chars_of(input);
    let lines = split_lines(&chars);
    let mut schema = Schema::new();
    let mut current: Option<TypeDef> = None;
    let mut in_block = false;
    let mut repeated: Option<String> = None;
    let ghost start = scan_start();
    let ghost all = lines_of(input@);
    let mut i: usize = 0;
    while i < lines.len()
        invariant
            i <= lines.len(),
            all == texts(lines@),
            all == lines_of(input@),
            start == scan_start(),
            schema.well_formed(),
            scan_lines(all, 0, start) == scan_lines(
                all,
                i as int,
                scan_state(schema, current, in_block, repeated),
            ),
        decreases lines.len() - i,
    {
        let line = trim(&lines[i]);
        let ghost st = scan_state(schema, current, in_block, repeated);
        assert(all[i as int] == lines[i as int]@);
        assert(line@ == trimmed(all[i as int]));
        if line.len() == 0 || starts_with(&line, "//") || starts_with(&line, "#") {
            assert(scan_line(st, line@) == Ok::<SchemaScan, Seq<char>>(st));
        } else if starts_with(&line, "type ") {
            let parts = split_words(&line);
            assert(words_of(line@).len() == parts.len());
            if parts.len() < 3 || !chars_are(&parts[2], "{") {
                if parts.len() >= 3 {
                    assert(words_of(line@)[2] == parts[2]@);
                }
                assert(scan_line(st, line@) == Err::<SchemaScan, Seq<char>>(
                    "Invalid type definition: "@ + line@,
                ));
                return Err(message_with("Invalid type definition: ", &line));
            }
            assert(words_of(line@)[2] == parts[2]@);
            assert(words_of(line@)[1] == parts[1]@);
            repeated = close_current(&mut schema, current, repeated);
            current = Some(TypeDef { name: string_of(&parts[1]), fields: Vec::new(), description: None });
            in_block = true;
            assert(field_views(current->0.fields@) =~= Seq::<FieldDefView>::empty());
        } else if chars_are(&line, "}") {
            repeated = close_current(&mut schema, current, repeated);
            current = None;
            in_block = false;
        } else if in_block && current.is_some() {
            let mut end: usize = line.len();
            while end > 0 && line[end - 1] == ','
                invariant
                    end <= line.len(),
                    comma_end(line@, line.len() as int) == comma_end(line@, end as int),
                decreases end,
            {
                end -= 1;
            }
            let fl = slice_of(&line, 0, end);
            let colon = find_char(&fl, ':', 0);
            if colon >= fl.len() {
                assert(scan_line(st, line@) == Err::<SchemaScan, Seq<char>>(
                    "Invalid field definition: "@ + line@,
                ));
                return Err(message_with("Invalid field definition: ", &line));
            }
            let field = parse_field_line(&fl, colon);
            let mut def = current.unwrap();
            let ghost before = def@;
            def.fields.push(field);
            assert(field_views(def.fields@) =~= before.fields.push(field@));
            current = Some(def);
        } else {
        }
        i += 1;
    }
    let repeated = close_current(&mut schema, current, repeated);
    match schema.validate() {
        Ok(()) => Ok((schema, repeated)),
        Err(e) => Err(e),
    }
}

} // verus!
