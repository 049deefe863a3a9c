//! Schema packages: manifests, loaded packages, type environments.
//!
//! A package is a directory with a manifest, `hel-package.toml`, and the
//! schema files that the manifest lists. The library reads no disk: the
//! files of the package directories are handed to it as texts by path (see
//! [`crate::schema::registry`]).

use crate::assoc::{ascending, keys_of, lemma_lower_bound, place, placed, position};
use crate::schema::{
    check_table, clone_table, clone_text_opt, find_type, first_undefined, table_get, table_view,
    text_opt, Schema, TypeDef, TypeTable,
};
use crate::text::{
    chars_of, has_prefix, lines_of, push_str, slice_of, split_lines, starts_with, string_of, texts,
    texts_of, trim, trimmed,
};
use crate::trace::fact_list;
use toml::Value as TomlItem;
use vstd::prelude::*;

verus! {

/// `toml::map::Map`, the table of a TOML document.
#[verifier::external_type_specification]
#[verifier::external_body]
#[verifier::reject_recursive_types(K)]
#[verifier::reject_recursive_types(V)]
pub struct ExTomlMap<K, V>(toml::map::Map<K, V>);

/// The value type of `toml`, of which a table holds one under each key.
#[verifier::external_type_specification]
#[verifier::external_body]
pub struct ExTomlItem(TomlItem);

/// What `toml` makes of a text: the table of the document, or the message
/// of its error.
pub uninterp spec fn toml_document(content: Seq<char>) -> Result<toml::Table, Seq<char>>;

/// The keys of a table.
pub uninterp spec fn toml_keys(table: toml::Table) -> Set<Seq<char>>;

/// The entries of a table whose value is a string, with that string.
pub uninterp spec fn toml_texts(table: toml::Table) -> Map<Seq<char>, Seq<char>>;

/// The entries of a table whose value is an array: for each element its
/// string, if it is one.
pub uninterp spec fn toml_lists(table: toml::Table) -> Map<Seq<char>, Seq<Option<Seq<char>>>>;

/// The entries of a table whose value is a table: the entries of that
/// table in its stored order, each key with the string that is its value,
/// if it is one.
pub uninterp spec fn toml_tables(table: toml::Table) -> Map<
    Seq<char>,
    Seq<(Seq<char>, Option<Seq<char>>)>,
>;

/// Parses a TOML document with `str::parse::<toml::Table>`, which gives
/// the same table or the same error for the same text. The error is
/// returned as its `Display` text.
#[verifier::external_body]
fn parse_toml(content: &str) -> (r: Result<toml::Table, String>)
    ensures
        match r {
            Ok(table) => toml_document(content@) == Ok::<toml::Table, Seq<char>>(table),
            Err(message) => toml_document(content@) == Err::<toml::Table, Seq<char>>(message@),
        },
{
    match content.parse::<toml::Table>() {
        Ok(table) => Ok(table),
        Err(e) => Err(e.to_string()),
    }
}

/// `Map::contains_key`: whether the table has the key.
#[verifier::external_body]
fn table_has(table: &toml::Table, key: &str) -> (r: bool)
    ensures
        r == toml_keys(*table).contains(key@),
{
    table.contains_key(key)
}

/// `Map::get` on a key, for a value that is a string: a copy of the
/// string.
#[verifier::external_body]
fn table_text(table: &toml::Table, key: &str) -> (r: Option<String>)
    ensures
        match r {
            Some(s) => toml_texts(*table).contains_key(key@) && toml_texts(*table)[key@] == s@,
            None => !toml_texts(*table).contains_key(key@),
        },
{
    match table.get(key) {
        Some(TomlItem::String(s)) => Some(s.clone()),
        _ => None,
    }
}

/// The contents of a list of optional strings.
pub open spec fn optional_texts(items: Seq<Option<String>>) -> Seq<Option<Seq<char>>> {
    Seq::new(items.len(), |i: int| text_opt(items[i]))
}

/// `Map::get` on a key, for a value that is an array: for each element,
/// in order, a copy of its string (`Value::as_str`), if it is one.
#[verifier::external_body]
fn table_list(table: &toml::Table, key: &str) -> (r: Option<Vec<Option<String>>>)
    ensures
        match r {
            Some(items) => toml_lists(*table).contains_key(key@) && toml_lists(*table)[key@]
                == optional_texts(items@),
            None => !toml_lists(*table).contains_key(key@),
        },
{
    match table.get(key) {
        Some(TomlItem::Array(items)) => Some(
            items.iter().map(|v| v.as_str().map(|s| s.to_string())).collect(),
        ),
        _ => None,
    }
}

/// The contents of a list of keys with optional strings.
pub open spec fn optional_pairs(items: Seq<(String, Option<String>)>) -> Seq<
    (Seq<char>, Option<Seq<char>>),
> {
    Seq::new(items.len(), |i: int| (items[i].0@, text_opt(items[i].1)))
}

/// `Map::get` on a key, for a value that is a table: the entries of that
/// table as `Map::iter` gives them, each key with a copy of the string that
/// is its value (`Value::as_str`), if it is one.
#[verifier::external_body]
fn table_pairs(table: &toml::Table, key: &str) -> (r: Option<Vec<(String, Option<String>)>>)
    ensures
        match r {
            Some(items) => toml_tables(*table).contains_key(key@) && toml_tables(*table)[key@]
                == optional_pairs(items@),
            None => !toml_tables(*table).contains_key(key@),
        },
{
    match table.get(key) {
        Some(TomlItem::Table(inner)) => Some(
            inner.iter().map(|(k, v)| (k.clone(), v.as_str().map(|s| s.to_string()))).collect(),
        ),
        _ => None,
    }
}

/// The manifest of a package.
#[derive(Debug, PartialEq, Eq)]
pub struct PackageManifest {
    /// The name of the package.
    pub name: String,
    /// The version of the package, which the library keeps as it is.
    pub version: String,
    /// The paths of the schema files, in the order in which they are
    /// loaded.
    pub schemas: Vec<String>,
    /// The packages that this one depends on, each with its version
    /// requirement, in ascending order of their names. The requirements
    /// are kept and not enforced.
    pub dependencies: Vec<(String, String)>,
    /// The namespace of the built-ins of the package, if it is not the
    /// name of the package.
    pub builtins_namespace: Option<String>,
}

/// The mathematical content of a [`PackageManifest`].
pub struct ManifestView {
    pub name: Seq<char>,
    pub version: Seq<char>,
    pub schemas: Seq<Seq<char>>,
    pub dependencies: Seq<(Seq<char>, Seq<char>)>,
    pub builtins_namespace: Option<Seq<char>>,
}

/// The contents of a list of pairs of strings.
pub open spec fn pair_views(pairs: Seq<(String, String)>) -> Seq<(Seq<char>, Seq<char>)> {
    Seq::new(pairs.len(), |i: int| (pairs[i].0@, pairs[i].1@))
}

/// The first components of a list of pairs.
pub open spec fn pair_keys<X>(pairs: Seq<(Seq<char>, X)>) -> Seq<Seq<char>> {
    Seq::new(pairs.len(), |i: int| pairs[i].0)
}

impl View for PackageManifest {
    type V = ManifestView;

    open spec fn view(&self) -> ManifestView {
        ManifestView {
            name: self.name@,
            version: self.version@,
            schemas: texts_of(self.schemas@),
            dependencies: pair_views(self.dependencies@),
            builtins_namespace: text_opt(self.builtins_namespace),
        }
    }
}

/// A copy of a list of strings.
pub fn clone_strings(items: &Vec<String>) -> (r: Vec<String>)
    ensures
        texts_of(r@) == texts_of(items@),
{
    let mut out: Vec<String> = Vec::new();
    let mut i: usize = 0;
    while i < items.len()
        invariant
            i <= items.len(),
            out.len() == i,
            forall|j: int| 0 <= j < i ==> out[j]@ == items[j]@,
        decreases items.len() - i,
    {
        out.push(items[i].clone());
        i += 1;
    }
    assert(texts_of(out@) =~= texts_of(items@));
    out
}

impl Clone for PackageManifest {
    fn clone(&self) -> (r: PackageManifest)
        ensures
            r@ == self@,
    {
        let mut dependencies: Vec<(String, String)> = Vec::new();
        let mut i: usize = 0;
        while i < self.dependencies.len()
            invariant
                i <= self.dependencies.len(),
                dependencies.len() == i,
                forall|j: int|
                    0 <= j < i ==> dependencies[j].0@ == self.dependencies[j].0@
                        && dependencies[j].1@ == self.dependencies[j].1@,
            decreases self.dependencies.len() - i,
        {
            dependencies.push((self.dependencies[i].0.clone(), self.dependencies[i].1.clone()));
            i += 1;
        }
        assert(pair_views(dependencies@) =~= pair_views(self.dependencies@));
        PackageManifest {
            name: self.name.clone(),
            version: self.version.clone(),
            schemas: clone_strings(&self.schemas),
            dependencies,
            builtins_namespace: clone_text_opt(&self.builtins_namespace),
        }
    }
}

/// An error of the package system.
#[derive(Clone, Debug, PartialEq, Eq)]
pub enum PackageError {
    /// The manifest is not a valid manifest.
    ManifestParse(String),
    /// A schema file of a package does not parse.
    SchemaParse { package: String, file: String, error: String },
    /// A file cannot be read.
    Io(String),
    /// No search path holds the package.
    PackageNotFound { name: String, search_paths: Vec<String> },
    /// The manifest found for a package names another package.
    NameMismatch { expected: String, found: String },
    /// Two schema files of a package define the same type.
    DuplicateType { package: String, type_ident: String },
    /// Two packages give the same qualified name to a type.
    TypeCollision { type_ident: String },
    /// A type refers to a type that the environment lacks.
    UndefinedTypeReference { type_ident: String, context: String },
    /// A package depends on itself, directly or not.
    CircularDependency { package: String },
}

/// The mathematical content of a [`PackageError`].
pub enum PackageErrorView {
    ManifestParse(Seq<char>),
    SchemaParse { package: Seq<char>, file: Seq<char>, error: Seq<char> },
    Io(Seq<char>),
    PackageNotFound { name: Seq<char>, search_paths: Seq<Seq<char>> },
    NameMismatch { expected: Seq<char>, found: Seq<char> },
    DuplicateType { package: Seq<char>, type_ident: Seq<char> },
    TypeCollision { type_ident: Seq<char> },
    UndefinedTypeReference { type_ident: Seq<char>, context: Seq<char> },
    CircularDependency { package: Seq<char> },
}

impl View for PackageError {
    type V = PackageErrorView;

    open spec fn view(&self) -> PackageErrorView {
        match self {
            PackageError::ManifestParse(m) => PackageErrorView::ManifestParse(m@),
            PackageError::SchemaParse { package, file, error } => PackageErrorView::SchemaParse {
                package: package@,
                file: file@,
                error: error@,
            },
            PackageError::Io(m) => PackageErrorView::Io(m@),
            PackageError::PackageNotFound { name, search_paths } => {
                PackageErrorView::PackageNotFound {
                    name: name@,
                    search_paths: texts_of(search_paths@),
                }
            },
            PackageError::NameMismatch { expected, found } => PackageErrorView::NameMismatch {
                expected: expected@,
                found: found@,
            },
            PackageError::DuplicateType { package, type_ident } => PackageErrorView::DuplicateType {
                package: package@,
                type_ident: type_ident@,
            },
            PackageError::TypeCollision { type_ident } => PackageErrorView::TypeCollision {
                type_ident: type_ident@,
            },
            PackageError::UndefinedTypeReference { type_ident, context } => {
                PackageErrorView::UndefinedTypeReference {
                    type_ident: type_ident@,
                    context: context@,
                }
            },
            PackageError::CircularDependency { package } => PackageErrorView::CircularDependency {
                package: package@,
            },
        }
    }
}

/// The one-line description of a package error.
pub open spec fn package_error_text(e: PackageErrorView) -> Seq<char> {
    match e {
        PackageErrorView::ManifestParse(m) => "Failed to parse package manifest: "@ + m,
        PackageErrorView::SchemaParse { package, file, error } => {
            "Failed to parse schema in package '"@ + package + "', file '"@ + file + "': "@ + error
        },
        PackageErrorView::Io(m) => "I/O error: "@ + m,
        PackageErrorView::PackageNotFound { name, search_paths } => "Package '"@ + name
            + "' not found in search paths: ["@ + fact_list(search_paths, 0) + "]"@,
        PackageErrorView::NameMismatch { expected, found } => {
            "Package name mismatch: expected '"@ + expected + "', found '"@ + found + "'"@
        },
        PackageErrorView::DuplicateType { package, type_ident } => "Duplicate type '"@ + type_ident
            + "' in package '"@ + package + "'"@,
        PackageErrorView::TypeCollision { type_ident } => "Type name collision: '"@ + type_ident
            + "' is defined in multiple packages"@,
        PackageErrorView::UndefinedTypeReference { type_ident, context } => {
            "Undefined type reference '"@ + type_ident + "' in "@ + context
        },
        PackageErrorView::CircularDependency { package } => {
            "Circular dependency detected involving package '"@ + package + "'"@
        },
    }
}

impl PackageError {
    /// The one-line description of the error.
    pub fn message(&self) -> (r: String)
        ensures
            r@ == package_error_text(self@),
    {
        let mut out: Vec<char> = Vec::new();
        match self {
            PackageError::ManifestParse(m) => {
                push_str(&mut out, "Failed to parse package manifest: ");
                push_str(&mut out, m.as_str());
            },
            PackageError::SchemaParse { package, file, error } => {
                push_str(&mut out, "Failed to parse schema in package '");
                push_str(&mut out, package.as_str());
                push_str(&mut out, "', file '");
                push_str(&mut out, file.as_str());
                push_str(&mut out, "': ");
                push_str(&mut out, error.as_str());
            },
            PackageError::Io(m) => {
                push_str(&mut out, "I/O error: ");
                push_str(&mut out, m.as_str());
            },
            PackageError::PackageNotFound { name, search_paths } => {
                push_str(&mut out, "Package '");
                push_str(&mut out, name.as_str());
                push_str(&mut out, "' not found in search paths: [");
                crate::trace::push_quoted_list(&mut out, search_paths);
                push_str(&mut out, "]");
            },
            PackageError::NameMismatch { expected, found } => {
                push_str(&mut out, "Package name mismatch: expected '");
                push_str(&mut out, expected.as_str());
                push_str(&mut out, "', found '");
                push_str(&mut out, found.as_str());
                push_str(&mut out, "'");
            },
            PackageError::DuplicateType { package, type_ident } => {
                push_str(&mut out, "Duplicate type '");
                push_str(&mut out, type_ident.as_str());
                push_str(&mut out, "' in package '");
                push_str(&mut out, package.as_str());
                push_str(&mut out, "'");
            },
            PackageError::TypeCollision { type_ident } => {
                push_str(&mut out, "Type name collision: '");
                push_str(&mut out, type_ident.as_str());
                push_str(&mut out, "' is defined in multiple packages");
            },
            PackageError::UndefinedTypeReference { type_ident, context } => {
                push_str(&mut out, "Undefined type reference '");
                push_str(&mut out, type_ident.as_str());
                push_str(&mut out, "' in ");
                push_str(&mut out, context.as_str());
            },
            PackageError::CircularDependency { package } => {
                push_str(&mut out, "Circular dependency detected involving package '");
                push_str(&mut out, package.as_str());
                push_str(&mut out, "'");
            },
        }
        assert(out@ =~= package_error_text(self@));
        string_of(&out)
    }
}

/// The error for a field that the manifest lacks.
pub open spec fn missing_field(field: Seq<char>) -> PackageErrorView {
    PackageErrorView::ManifestParse("missing field `"@ + field + "`"@)
}

/// The error for a field of the wrong type.
pub open spec fn invalid_field(field: Seq<char>, expected: Seq<char>) -> PackageErrorView {
    PackageErrorView::ManifestParse(
        "invalid type for field `"@ + field + "`: expected "@ + expected,
    )
}

/// The string of a required field.
pub open spec fn required_text(table: toml::Table, field: Seq<char>) -> Result<
    Seq<char>,
    PackageErrorView,
> {
    if !toml_keys(table).contains(field) {
        Err(missing_field(field))
    } else if !toml_texts(table).contains_key(field) {
        Err(invalid_field(field, "a string"@))
    } else {
        Ok(toml_texts(table)[field])
    }
}

/// The position of the first element that is no string, or the length of
/// the list.
pub open spec fn first_gap(items: Seq<Option<Seq<char>>>, from: int) -> int
    decreases items.len() - from,
{
    if from < 0 || from >= items.len() {
        items.len() as int
    } else if items[from] is None {
        from
    } else {
        first_gap(items, from + 1)
    }
}

/// The strings of a list whose elements all are strings.
pub open spec fn all_texts(items: Seq<Option<Seq<char>>>) -> Seq<Seq<char>> {
    Seq::new(items.len(), |i: int| items[i]->0)
}

/// The dependencies that the pairs from position `from` on add: each is
/// placed under its name, or the scan stops at a requirement that is no
/// string.
pub open spec fn dependencies_from(
    pairs: Seq<(Seq<char>, Option<Seq<char>>)>,
    from: int,
    made: Seq<(Seq<char>, Seq<char>)>,
) -> Option<Seq<(Seq<char>, Seq<char>)>>
    decreases pairs.len() - from,
{
    if from < 0 || from >= pairs.len() {
        Some(made)
    } else {
        match pairs[from].1 {
            None => None,
            Some(requirement) => dependencies_from(
                pairs,
                from + 1,
                placed(made, pair_keys(made), pairs[from].0, (pairs[from].0, requirement)),
            ),
        }
    }
}

/// The manifest that a table holds: `name` and `version` are strings,
/// `schemas` is an array of strings, `dependencies`, if present, is a table
/// of strings, and `builtins_namespace`, if present, is a string. Other keys
/// are ignored.
pub open spec fn manifest_of_table(table: toml::Table) -> Result<ManifestView, PackageErrorView> {
    match required_text(table, "name"@) {
        Err(e) => Err(e),
        Ok(name) => match required_text(table, "version"@) {
            Err(e) => Err(e),
            Ok(version) => {
                if !toml_keys(table).contains("schemas"@) {
                    Err(missing_field("schemas"@))
                } else if !toml_lists(table).contains_key("schemas"@) || first_gap(
                    toml_lists(table)["schemas"@],
                    0,
                ) < toml_lists(table)["schemas"@].len() {
                    Err(invalid_field("schemas"@, "an array of strings"@))
                } else {
                    let schemas = all_texts(toml_lists(table)["schemas"@]);
                    let dependencies = if !toml_keys(table).contains("dependencies"@) {
                        Some(Seq::empty())
                    } else if !toml_tables(table).contains_key("dependencies"@) {
                        None
                    } else {
                        dependencies_from(toml_tables(table)["dependencies"@], 0, Seq::empty())
                    };
                    match dependencies {
                        None => Err(invalid_field("dependencies"@, "a table of strings"@)),
                        Some(deps) => {
                            if !toml_keys(table).contains("builtins_namespace"@) {
                                Ok(
                                    ManifestView {
                                        name,
                                        version,
                                        schemas,
                                        dependencies: deps,
                                        builtins_namespace: None,
                                    },
                                )
                            } else if !toml_texts(table).contains_key("builtins_namespace"@) {
                                Err(invalid_field("builtins_namespace"@, "a string"@))
                            } else {
                                Ok(
                                    ManifestView {
                                        name,
                                        version,
                                        schemas,
                                        dependencies: deps,
                                        builtins_namespace: Some(
                                            toml_texts(table)["builtins_namespace"@],
                                        ),
                                    },
                                )
                            }
                        },
                    }
                }
            },
        },
    }
}

/// The manifest that a TOML text holds.
pub open spec fn manifest_of(content: Seq<char>) -> Result<ManifestView, PackageErrorView> {
    match toml_document(content) {
        Err(message) => Err(PackageErrorView::ManifestParse(message)),
        Ok(table) => manifest_of_table(table),
    }
}

/// Whether a manifest that was read is what the text holds.
pub open spec fn manifest_is(
    r: Result<PackageManifest, PackageError>,
    m: Result<ManifestView, PackageErrorView>,
) -> bool {
    match (r, m) {
        (Ok(manifest), Ok(view)) => manifest@ == view,
        (Err(e), Err(v)) => e@ == v,
        _ => false,
    }
}

/// The error for a field that the manifest lacks.
fn missing(field: &str) -> (r: PackageError)
    ensures
        r@ == missing_field(field@),
{
    let mut out: Vec<char> = Vec::new();
    push_str(&mut out, "missing field `");
    push_str(&mut out, field);
    push_str(&mut out, "`");
    assert(out@ =~= "missing field `"@ + field@ + "`"@);
    PackageError::ManifestParse(string_of(&out))
}

/// The error for a field of the wrong kind.
fn invalid(field: &str, expected: &str) -> (r: PackageError)
    ensures
        r@ == invalid_field(field@, expected@),
{
    let mut out: Vec<char> = Vec::new();
    push_str(&mut out, "invalid type for field `");
    push_str(&mut out, field);
    push_str(&mut out, "`: expected ");
    push_str(&mut out, expected);
    assert(out@ =~= "invalid type for field `"@ + field@ + "`: expected "@ + expected@);
    PackageError::ManifestParse(string_of(&out))
}

/// The string under a field that the manifest must have.
fn read_text(table: &toml::Table, field: &str) -> (r: Result<String, PackageError>)
    ensures
        match (r, required_text(*table, field@)) {
            (Ok(s), Ok(t)) => s@ == t,
            (Err(e), Err(v)) => e@ == v,
            _ => false,
        },
{
    if !table_has(table, field) {
        return Err(missing(field));
    }
    match table_text(table, field) {
        Some(s) => Ok(s),
        None => Err(invalid(field, "a string")),
    }
}

impl PackageManifest {
    /// Whether the manifest is well formed: the names of its dependencies
    /// stand in ascending order, each once.
    pub open spec fn well_formed(&self) -> bool {
        ascending(pair_keys(self@.dependencies))
    }

    /// The manifest that a parsed TOML table holds.
    pub fn from_table(table: &toml::Table) -> (r: Result<PackageManifest, PackageError>)
        ensures
            manifest_is(r, manifest_of_table(*table)),
            r is Ok ==> r->Ok_0.well_formed(),
    {
        let name = match read_text(table, "name") {
            Err(e) => {
                return Err(e);
            },
            Ok(s) => s,
        };
        let version = match read_text(table, "version") {
            Err(e) => {
                return Err(e);
            },
            Ok(s) => s,
        };
        if !table_has(table, "schemas") {
            return Err(missing("schemas"));
        }
        let listed = match table_list(table, "schemas") {
            None => {
                return Err(invalid("schemas", "an array of strings"));
            },
            Some(items) => items,
        };
        let ghost items = toml_lists(*table)["schemas"@];
        let ghost expected = manifest_of_table(*table);
        let mut schemas: Vec<String> = Vec::new();
        let mut i: usize = 0;
        while i < listed.len()
            invariant
                i <= listed.len(),
                items == optional_texts(listed@),
                first_gap(items, 0) < items.len() ==> expected == Err::<
                    ManifestView,
                    PackageErrorView,
                >(invalid_field("schemas"@, "an array of strings"@)),
                expected == manifest_of_table(*table),
                schemas.len() == i,
                first_gap(items, 0) == first_gap(items, i as int),
                forall|j: int| 0 <= j < i ==> items[j] == Some(#[trigger] schemas[j]@),
            decreases listed.len() - i,
        {
            assert(items[i as int] == text_opt(listed[i as int]));
            match &listed[i] {
                None => {
                    return Err(invalid("schemas", "an array of strings"));
                },
                Some(s) => {
                    schemas.push(s.clone());
                },
            }
            i += 1;
        }
        assert(texts_of(schemas@) =~= all_texts(items));
        let mut dependencies: Vec<(String, String)> = Vec::new();
        assert(pair_views(dependencies@) =~= Seq::<(Seq<char>, Seq<char>)>::empty());
        if table_has(table, "dependencies") {
            let pairs = match table_pairs(table, "dependencies") {
                None => {
                    return Err(invalid("dependencies", "a table of strings"));
                },
                Some(pairs) => pairs,
            };
            let ghost all = toml_tables(*table)["dependencies"@];
            let mut k: usize = 0;
            while k < pairs.len()
                invariant
                    k <= pairs.len(),
                    all == optional_pairs(pairs@),
                    dependencies_from(all, 0, Seq::empty()) is None ==> expected == Err::<
                        ManifestView,
                        PackageErrorView,
                    >(invalid_field("dependencies"@, "a table of strings"@)),
                    expected == manifest_of_table(*table),
                    ascending(pair_keys(pair_views(dependencies@))),
                    dependencies_from(all, 0, Seq::empty()) == dependencies_from(
                        all,
                        k as int,
                        pair_views(dependencies@),
                    ),
                decreases pairs.len() - k,
            {
                assert(all[k as int] == (pairs[k as int].0@, text_opt(pairs[k as int].1)));
                match &pairs[k].1 {
                    None => {
                        return Err(invalid("dependencies", "a table of strings"));
                    },
                    Some(requirement) => {
                        let ghost before = pair_views(dependencies@);
                        assert(keys_of(dependencies@) =~= pair_keys(before));
                        proof {
                            lemma_lower_bound(keys_of(dependencies@), pairs[k as int].0@, 0);
                            crate::assoc::lemma_placed_keys(pair_keys(before), pairs[k as int].0@);
                        }
                        place(&mut dependencies, pairs[k].0.clone(), requirement.clone());
                        assert(pair_views(dependencies@) =~= placed(
                            before,
                            pair_keys(before),
                            pairs[k as int].0@,
                            (pairs[k as int].0@, requirement@),
                        ));
                        assert(pair_keys(pair_views(dependencies@)) =~= placed(
                            pair_keys(before),
                            pair_keys(before),
                            pairs[k as int].0@,
                            pairs[k as int].0@,
                        ));
                    },
                }
                k += 1;
            }
        }
        let builtins_namespace = if table_has(table, "builtins_namespace") {
            match table_text(table, "builtins_namespace") {
                None => {
                    return Err(invalid("builtins_namespace", "a string"));
                },
                Some(s) => Some(s),
            }
        } else {
            None
        };
        Ok(PackageManifest { name, version, schemas, dependencies, builtins_namespace })
    }

    /// Reads a manifest from its TOML text.
    pub fn from_toml(content: &str) -> (r: Result<PackageManifest, PackageError>)
        ensures
            manifest_is(r, manifest_of(content@)),
            r is Ok ==> r->Ok_0.well_formed(),
    {
        match parse_toml(content) {
            Err(message) => Err(PackageError::ManifestParse(message)),
            Ok(table) => PackageManifest::from_table(&table),
        }
    }
}

/// The names of the packages that an import line names, if it is one: the
/// text between the quotes of `import "name";`.
pub open spec fn import_of(line: Seq<char>) -> Option<Seq<char>> {
    if has_prefix(line, "import "@) && line.len() >= 7 {
        let rest = trimmed(line.subrange(7, line.len() as int));
        let end = crate::schema::semicolon_end(rest, rest.len() as int);
        let name = trimmed(rest.subrange(0, end));
        if name.len() >= 2 && name[0] == '"' && name.last() == '"' {
            Some(name.subrange(1, name.len() - 1))
        } else {
            None
        }
    } else {
        None
    }
}

/// The imports of the lines from position `from` on, after those found so
/// far.
pub open spec fn imports_from(lines: Seq<Seq<char>>, from: int, found: Seq<Seq<char>>) -> Seq<
    Seq<char>,
>
    decreases lines.len() - from,
{
    if from < 0 || from >= lines.len() {
        found
    } else {
        match import_of(trimmed(lines[from])) {
            Some(name) => imports_from(lines, from + 1, found.push(name)),
            None => imports_from(lines, from + 1, found),
        }
    }
}

/// The imports that a schema text declares, in the order of the text.
pub open spec fn imports_of(content: Seq<char>) -> Seq<Seq<char>> {
    imports_from(lines_of(content), 0, Seq::empty())
}

/// The imports that a schema text declares: one for each line of the form
/// `import "name";`.
pub fn extract_imports(content: &str) -> (r: Vec<String>)
    ensures
        texts_of(r@) == imports_of(content@),
{
    let chars = chars_of(content);
    let lines = split_lines(&chars);
    let ghost all = lines_of(content@);
    let mut imports: Vec<String> = Vec::new();
    let mut i: usize = 0;
    assert(texts_of(imports@) =~= Seq::<Seq<char>>::empty());
    while i < lines.len()
        invariant
            i <= lines.len(),
            all == texts(lines@),
            imports_of(content@) == imports_from(all, i as int, texts_of(imports@)),
        decreases lines.len() - i,
    {
        let line = trim(&lines[i]);
        assert(all[i as int] == lines[i as int]@);
        proof {
            reveal_strlit("import ");
        }
        if starts_with(&line, "import ") {
            let rest = trim(&slice_of(&line, 7, line.len()));
            let mut end: usize = rest.len();
            while end > 0 && rest[end - 1] == ';'
                invariant
                    end <= rest.len(),
                    crate::schema::semicolon_end(rest@, rest.len() as int)
                        == crate::schema::semicolon_end(rest@, end as int),
                decreases end,
            {
                end -= 1;
            }
            let name = trim(&slice_of(&rest, 0, end));
            if name.len() >= 2 && name[0] == '"' && name[name.len() - 1] == '"' {
                let ghost before = texts_of(imports@);
                let import = crate::text::string_of_range(&name, 1, name.len() - 1);
                imports.push(import);
                assert(texts_of(imports@) =~= before.push(import@));
            }
        }
        i += 1;
    }
    imports
}

/// The types of several packages, by qualified name `package.Type`.
#[derive(Debug, PartialEq, Eq)]
pub struct TypeEnvironment {
    /// The types, in ascending order of their qualified names.
    pub types: Vec<(String, TypeDef)>,
}

impl View for TypeEnvironment {
    type V = TypeTable;

    open spec fn view(&self) -> TypeTable {
        table_view(self.types@)
    }
}

impl Clone for TypeEnvironment {
    fn clone(&self) -> (r: TypeEnvironment)
        ensures
            r@ == self@,
    {
        TypeEnvironment { types: clone_table(&self.types) }
    }
}

impl TypeEnvironment {
    /// Whether the environment is well formed: its qualified names stand
    /// in ascending order, each once.
    pub open spec fn well_formed(&self) -> bool {
        crate::schema::table_ordered(self@)
    }

    /// The type of a qualified name, if the environment has it.
    pub fn get_type(&self, qualified_name: &str) -> (r: Option<&TypeDef>)
        ensures
            match r {
                Some(def) => table_get(self@, qualified_name@) == Some(def@),
                None => table_get(self@, qualified_name@) is None,
            },
    {
        find_type(&self.types, qualified_name)
    }

    /// Checks that every type reference names a type of the environment,
    /// by its qualified name. The error names the first reference that does
    /// not, and the type that holds it.
    pub fn validate(&self) -> (r: Result<(), PackageError>)
        ensures
            match first_undefined(self@) {
                Some((name, holder)) => r is Err && r->Err_0@
                    == (PackageErrorView::UndefinedTypeReference {
                    type_ident: name,
                    context: holder,
                }),
                None => r is Ok,
            },
    {
        match check_table(&self.types) {
            Some((type_ident, context)) => Err(
                PackageError::UndefinedTypeReference { type_ident, context },
            ),
            None => Ok(()),
        }
    }
}

} // verus!
