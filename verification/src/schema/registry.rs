//! The package registry: loading packages, resolving their dependencies,
//! and merging their types into one environment.
//!
//! The registry works on a file store, which holds the texts of the files
//! of the package directories by path. A host fills the store from its disk
//! and then asks the registry to load and resolve.

use crate::assoc::{
    ascending, assign, assigned, has_key, key_index, keys_of, lemma_key_index, lemma_lower_bound,
    lemma_placed_keys, placed, position,
};
use crate::schema::package::{
    clone_strings, extract_imports, imports_of, manifest_of, pair_keys, pair_views, ManifestView,
    PackageError, PackageErrorView, PackageManifest, TypeEnvironment,
};
use crate::schema::{
    place_type, read_schema, repeated_in, schema_of, table_keys, table_view, table_with, text_opt,
    Schema, TypeDef, TypeDefView, TypeTable,
};
use crate::text::{push_str, str_eq, string_of, texts_of};
use vstd::prelude::*;

verus! {

/// The texts of files, by path.
pub struct FileStore {
    pub files: Vec<(String, String)>,
}

impl View for FileStore {
    type V = Seq<(Seq<char>, Seq<char>)>;

    open spec fn view(&self) -> Seq<(Seq<char>, Seq<char>)> {
        pair_views(self.files@)
    }
}

/// The text of the file at a path, if the store has it.
pub open spec fn file_at(files: Seq<(Seq<char>, Seq<char>)>, path: Seq<char>) -> Option<Seq<char>> {
    let i = key_index(pair_keys(files), path, 0);
    if 0 <= i < files.len() {
        Some(files[i].1)
    } else {
        None
    }
}

impl FileStore {
    /// Whether the store is well formed: no path occurs twice.
    pub open spec fn well_formed(&self) -> bool {
        crate::assoc::distinct(pair_keys(self@))
    }

    /// A store without files.
    pub fn new() -> (r: FileStore)
        ensures
            r@ == Seq::<(Seq<char>, Seq<char>)>::empty(),
            r.well_formed(),
    {
        let r = FileStore { files: Vec::new() };
        assert(r@ =~= Seq::<(Seq<char>, Seq<char>)>::empty());
        r
    }

    /// Sets the text of the file at a path.
    pub fn add_file(&mut self, path: &str, content: &str)
        ensures
            final(self)@ == assigned(old(self)@, pair_keys(old(self)@), path@, (path@, content@)),
            old(self).well_formed() ==> final(self).well_formed(),
    {
        let ghost before = self.files@;
        assert(keys_of(before) =~= pair_keys(pair_views(before)));
        proof {
            lemma_key_index(keys_of(before), path@, 0);
        }
        assign(&mut self.files, path.to_owned(), content.to_owned());
        assert(self@ =~= assigned(old(self)@, pair_keys(old(self)@), path@, (path@, content@)));
        proof {
            let keys = pair_keys(old(self)@);
            assert(pair_keys(self@) =~= assigned(keys, keys, path@, path@));
            if old(self).well_formed() {
                crate::assoc::lemma_assigned_distinct(keys, path@);
            }
        }
    }

    /// The text of the file at a path, if the store has it.
    pub fn read(&self, path: &str) -> (r: Option<&String>)
        ensures
            text_ref_opt(r) == file_at(self@, path@),
    {
        assert(keys_of(self.files@) =~= pair_keys(self@));
        match position(&self.files, path) {
            Some(i) => Some(&self.files[i].1),
            None => None,
        }
    }
}

/// The content of an optional reference to a text.
pub open spec fn text_ref_opt(s: Option<&String>) -> Option<Seq<char>> {
    match s {
        Some(t) => Some(t@),
        None => None,
    }
}

/// The path of an entry of a directory.
pub open spec fn joined_path(dir: Seq<char>, name: Seq<char>) -> Seq<char> {
    dir + "/"@ + name
}

/// The path of an entry of a directory: the two with a slash between them.
pub fn join_path(dir: &str, name: &str) -> (r: String)
    ensures
        r@ == joined_path(dir@, name@),
{
    let mut out: Vec<char> = Vec::new();
    push_str(&mut out, dir);
    push_str(&mut out, "/");
    push_str(&mut out, name);
    assert(out@ =~= joined_path(dir@, name@));
    string_of(&out)
}

/// A loaded package.
#[derive(Debug, PartialEq, Eq)]
pub struct SchemaPackage {
    /// The manifest.
    pub manifest: PackageManifest,
    /// The types of all the schema files.
    pub schema: Schema,
    /// The imports that the schema files declare.
    pub imports: Vec<String>,
    /// The directory of the package.
    pub root_path: String,
}

/// The mathematical content of a [`SchemaPackage`].
pub struct PackageView {
    pub manifest: ManifestView,
    pub schema: TypeTable,
    pub imports: Seq<Seq<char>>,
    pub root_path: Seq<char>,
}

impl View for SchemaPackage {
    type V = PackageView;

    open spec fn view(&self) -> PackageView {
        PackageView {
            manifest: self.manifest@,
            schema: self.schema@,
            imports: texts_of(self.imports@),
            root_path: self.root_path@,
        }
    }
}

impl Clone for SchemaPackage {
    fn clone(&self) -> (r: SchemaPackage)
        ensures
            r@ == self@,
    {
        SchemaPackage {
            manifest: self.manifest.clone(),
            schema: self.schema.clone(),
            imports: clone_strings(&self.imports),
            root_path: self.root_path.clone(),
        }
    }
}

/// The error for a file that the store lacks.
pub open spec fn unreadable(what: Seq<char>, path: Seq<char>) -> PackageErrorView {
    PackageErrorView::Io("Failed to read "@ + what + path + ": file not found"@)
}

/// The types of one schema file, from position `from` on, added to the
/// types of the package; a type that the package has already is an error.
pub open spec fn merged_types(
    package: Seq<char>,
    types: TypeTable,
    from: int,
    combined: TypeTable,
) -> Result<TypeTable, PackageErrorView>
    decreases types.len() - from,
{
    if from < 0 || from >= types.len() {
        Ok(combined)
    } else if has_key(table_keys(combined), types[from].0) {
        Err(PackageErrorView::DuplicateType { package, type_ident: types[from].0 })
    } else {
        merged_types(package, types, from + 1, table_with(combined, types[from].0, types[from].1))
    }
}

/// The types and imports of the schema files from position `from` on,
/// added to those read so far. A file that defines a type twice is an
/// error, and so is a file that defines a type of an earlier file.
pub open spec fn schemas_from(
    files: Seq<(Seq<char>, Seq<char>)>,
    dir: Seq<char>,
    manifest: ManifestView,
    from: int,
    combined: TypeTable,
    imports: Seq<Seq<char>>,
) -> Result<(TypeTable, Seq<Seq<char>>), PackageErrorView>
    decreases manifest.schemas.len() - from,
{
    if from < 0 || from >= manifest.schemas.len() {
        Ok((combined, imports))
    } else {
        let file = manifest.schemas[from];
        let path = joined_path(dir, file);
        match file_at(files, path) {
            None => Err(unreadable("schema "@, path)),
            Some(content) => match schema_of(content) {
                Err(error) => Err(
                    PackageErrorView::SchemaParse { package: manifest.name, file, error },
                ),
                Ok(types) => match repeated_in(content) {
                    Some(name) => Err(
                        PackageErrorView::DuplicateType { package: manifest.name, type_ident: name },
                    ),
                    None => match merged_types(manifest.name, types, 0, combined) {
                        Err(e) => Err(e),
                        Ok(next) => schemas_from(
                            files,
                            dir,
                            manifest,
                            from + 1,
                            next,
                            imports + imports_of(content),
                        ),
                    },
                },
            },
        }
    }
}

/// The manifest that the file at a path holds.
pub open spec fn manifest_at(files: Seq<(Seq<char>, Seq<char>)>, path: Seq<char>) -> Result<
    ManifestView,
    PackageErrorView,
> {
    match file_at(files, path) {
        None => Err(unreadable("manifest at "@, path)),
        Some(content) => manifest_of(content),
    }
}

/// The package that a directory holds: its manifest is read, then its
/// schema files in the order of the manifest.
pub open spec fn package_at(files: Seq<(Seq<char>, Seq<char>)>, dir: Seq<char>) -> Result<
    PackageView,
    PackageErrorView,
> {
    match manifest_at(files, joined_path(dir, "hel-package.toml"@)) {
        Err(e) => Err(e),
        Ok(manifest) => match schemas_from(files, dir, manifest, 0, Seq::empty(), Seq::empty()) {
            Err(e) => Err(e),
            Ok((schema, imports)) => Ok(PackageView { manifest, schema, imports, root_path: dir }),
        },
    }
}

/// Whether a package that was read is what the directory holds.
pub open spec fn package_is(
    r: Result<SchemaPackage, PackageError>,
    p: Result<PackageView, PackageErrorView>,
) -> bool {
    match (r, p) {
        (Ok(package), Ok(view)) => package@ == view,
        (Err(e), Err(v)) => e@ == v,
        _ => false,
    }
}

/// Executable form of [`unreadable`].
fn unreadable_error(what: &str, path: &str) -> (r: PackageError)
    ensures
        r@ == unreadable(what@, path@),
{
    let mut out: Vec<char> = Vec::new();
    push_str(&mut out, "Failed to read ");
    push_str(&mut out, what);
    push_str(&mut out, path);
    push_str(&mut out, ": file not found");
    assert(out@ =~= "Failed to read "@ + what@ + path@ + ": file not found"@);
    PackageError::Io(string_of(&out))
}

impl PackageManifest {
    /// Reads the manifest that the file at a path of the store holds.
    pub fn from_file(files: &FileStore, path: &str) -> (r: Result<PackageManifest, PackageError>)
        ensures
            crate::schema::package::manifest_is(r, manifest_at(files@, path@)),
    {
        match files.read(path) {
            None => Err(unreadable_error("manifest at ", path)),
            Some(content) => PackageManifest::from_toml(content.as_str()),
        }
    }
}

impl SchemaPackage {
    /// Loads the package of a directory from the files of a store.
    pub fn from_directory(files: &FileStore, dir: &str) -> (r: Result<SchemaPackage, PackageError>)
        ensures
            package_is(r, package_at(files@, dir@)),
            r is Ok ==> r->Ok_0.schema.well_formed(),
    {
        let manifest_path = join_path(dir, "hel-package.toml");
        let manifest = match PackageManifest::from_file(files, manifest_path.as_str()) {
            Err(e) => {
                return Err(e);
            },
            Ok(manifest) => manifest,
        };
        let mut combined = Schema::new();
        let mut imports: Vec<String> = Vec::new();
        assert(texts_of(imports@) =~= Seq::<Seq<char>>::empty());
        let ghost store = files@;
        let ghost m = manifest@;
        let mut i: usize = 0;
        while i < manifest.schemas.len()
            invariant
                i <= manifest.schemas.len(),
                store == files@,
                m == manifest@,
                combined.well_formed(),
                schemas_from(store, dir@, m, 0, Seq::empty(), Seq::empty()) == schemas_from(
                    store,
                    dir@,
                    m,
                    i as int,
                    combined@,
                    texts_of(imports@),
                ),
                package_at(store, dir@) == (match schemas_from(
                    store,
                    dir@,
                    m,
                    0,
                    Seq::empty(),
                    Seq::empty(),
                ) {
                    Err(e) => Err::<PackageView, PackageErrorView>(e),
                    Ok((schema, found)) => Ok(
                        PackageView { manifest: m, schema, imports: found, root_path: dir@ },
                    ),
                }),
            decreases manifest.schemas.len() - i,
        {
            let file = &manifest.schemas[i];
            assert(m.schemas[i as int] == file@);
            let path = join_path(dir, file.as_str());
            let text = match files.read(path.as_str()) {
                None => {
                    return Err(unreadable_error("schema ", path.as_str()));
                },
                Some(text) => text,
            };
            let found = extract_imports(text.as_str());
            let (parsed, repeated) = match read_schema(text.as_str()) {
                Err(error) => {
                    return Err(
                        PackageError::SchemaParse {
                            package: manifest.name.clone(),
                            file: file.clone(),
                            error,
                        },
                    );
                },
                Ok(parsed) => parsed,
            };
            match repeated {
                Some(name) => {
                    return Err(
                        PackageError::DuplicateType {
                            package: manifest.name.clone(),
                            type_ident: name,
                        },
                    );
                },
                None => {},
            }
            let ghost types = parsed@;
            let ghost before = combined@;
            let mut j: usize = 0;
            while j < parsed.types.len()
                invariant
                    j <= parsed.types.len(),
                    types == parsed@,
                    m == manifest@,
                    store == files@,
                    combined.well_formed(),
                    merged_types(m.name, types, 0, before) == merged_types(
                        m.name,
                        types,
                        j as int,
                        combined@,
                    ),
                    schemas_from(store, dir@, m, i as int, before, texts_of(imports@)) == (
                    match merged_types(m.name, types, 0, before) {
                        Err(e) => Err::<(TypeTable, Seq<Seq<char>>), PackageErrorView>(e),
                        Ok(next) => schemas_from(
                            store,
                            dir@,
                            m,
                            i as int + 1,
                            next,
                            texts_of(imports@) + texts_of(found@),
                        ),
                    }),
                    schemas_from(store, dir@, m, 0, Seq::empty(), Seq::empty()) == schemas_from(
                        store,
                        dir@,
                        m,
                        i as int,
                        before,
                        texts_of(imports@),
                    ),
                    package_at(store, dir@) == (match schemas_from(
                        store,
                        dir@,
                        m,
                        0,
                        Seq::empty(),
                        Seq::empty(),
                    ) {
                        Err(e) => Err::<PackageView, PackageErrorView>(e),
                        Ok((schema, found)) => Ok(
                            PackageView { manifest: m, schema, imports: found, root_path: dir@ },
                        ),
                    }),
                decreases parsed.types.len() - j,
            {
                let name = &parsed.types[j].0;
                assert(types[j as int] == (name@, parsed.types[j as int].1@));
                assert(keys_of(combined.types@) =~= table_keys(combined@));
                if position(&combined.types, name.as_str()).is_some() {
                    return Err(
                        PackageError::DuplicateType {
                            package: manifest.name.clone(),
                            type_ident: name.clone(),
                        },
                    );
                }
                proof {
                    crate::schema::lemma_table_with_ordered(
                        combined@,
                        name@,
                        parsed.types[j as int].1@,
                    );
                }
                place_type(&mut combined.types, name.clone(), parsed.types[j].1.clone());
                j += 1;
            }
            let ghost old_imports = texts_of(imports@);
            let mut k: usize = 0;
            while k < found.len()
                invariant
                    k <= found.len(),
                    texts_of(imports@) == old_imports + texts_of(found@).subrange(0, k as int),
                decreases found.len() - k,
            {
                let ghost before_push = texts_of(imports@);
                imports.push(found[k].clone());
                assert(texts_of(imports@) =~= before_push.push(found[k as int]@));
                assert(texts_of(found@).subrange(0, k as int + 1) =~= texts_of(found@).subrange(
                    0,
                    k as int,
                ).push(found[k as int]@));
                k += 1;
            }
            assert(texts_of(found@).subrange(0, found.len() as int) =~= texts_of(found@));
            i += 1;
        }
        Ok(SchemaPackage { manifest, schema: combined, imports, root_path: dir.to_owned() })
    }

    /// The namespace of the types of the package: its name.
    pub fn namespace(&self) -> (r: &str)
        ensures
            r@ == self@.manifest.name,
    {
        self.manifest.name.as_str()
    }

    /// The namespace of the built-ins of the package: the one its manifest
    /// names, or else the name of the package.
    pub fn builtins_namespace(&self) -> (r: String)
        ensures
            r@ == (match self@.manifest.builtins_namespace {
                Some(ns) => ns,
                None => self@.manifest.name,
            }),
    {
        match &self.manifest.builtins_namespace {
            Some(ns) => ns.clone(),
            None => self.manifest.name.clone(),
        }
    }
}

/// The registry of packages: where packages are searched, the files that
/// can be read, and the packages loaded so far.
pub struct PackageRegistry {
    /// The directories in which packages are searched, in order.
    pub search_paths: Vec<String>,
    /// The files of the package directories.
    pub files: FileStore,
    /// The packages loaded so far, by name.
    pub packages: Vec<(String, SchemaPackage)>,
}

/// The mathematical content of a [`PackageRegistry`].
pub struct RegistryView {
    pub search_paths: Seq<Seq<char>>,
    pub files: Seq<(Seq<char>, Seq<char>)>,
    pub packages: Seq<(Seq<char>, PackageView)>,
}

/// The contents of the stored packages.
pub open spec fn package_views(packages: Seq<(String, SchemaPackage)>) -> Seq<
    (Seq<char>, PackageView),
> {
    Seq::new(packages.len(), |i: int| (packages[i].0@, packages[i].1@))
}

impl View for PackageRegistry {
    type V = RegistryView;

    open spec fn view(&self) -> RegistryView {
        RegistryView {
            search_paths: texts_of(self.search_paths@),
            files: self.files@,
            packages: package_views(self.packages@),
        }
    }
}

/// The loaded package of a name, if there is one.
pub open spec fn package_of(packages: Seq<(Seq<char>, PackageView)>, name: Seq<char>) -> Option<
    PackageView,
> {
    let i = key_index(pair_keys(packages), name, 0);
    if 0 <= i < packages.len() {
        Some(packages[i].1)
    } else {
        None
    }
}

/// The error of a search that found no directory: a manifest of another
/// name was passed over, or there was no manifest at all.
pub open spec fn not_found(
    search_paths: Seq<Seq<char>>,
    name: Seq<char>,
    other: Option<Seq<char>>,
) -> PackageErrorView {
    match other {
        Some(found) => PackageErrorView::NameMismatch { expected: name, found },
        None => PackageErrorView::PackageNotFound { name, search_paths },
    }
}

/// The directory of a package: under the first search path, from position
/// `from` on, that holds a directory of that name whose manifest carries
/// the name. A directory without a manifest is passed over, and so is one
/// whose manifest names another package; `other` is the first such name
/// met so far. A manifest that cannot be read as one ends the search with
/// its error. Where no directory is found, the error is a name mismatch
/// with the first other name, or that the package is not found.
pub open spec fn found_dir(
    files: Seq<(Seq<char>, Seq<char>)>,
    search_paths: Seq<Seq<char>>,
    name: Seq<char>,
    from: int,
    other: Option<Seq<char>>,
) -> Result<Seq<char>, PackageErrorView>
    decreases search_paths.len() - from,
{
    if from < 0 || from >= search_paths.len() {
        Err(not_found(search_paths, name, other))
    } else {
        let dir = joined_path(search_paths[from], name);
        match file_at(files, joined_path(dir, "hel-package.toml"@)) {
            None => found_dir(files, search_paths, name, from + 1, other),
            Some(content) => match manifest_of(content) {
                Err(e) => Err(e),
                Ok(manifest) => if manifest.name == name {
                    Ok(dir)
                } else {
                    found_dir(
                        files,
                        search_paths,
                        name,
                        from + 1,
                        if other is Some {
                            other
                        } else {
                            Some(manifest.name)
                        },
                    )
                },
            },
        }
    }
}

/// What loading a package gives: the package, and the loaded packages
/// afterwards. A package that is loaded already is returned as it is.
/// Otherwise its directory is searched (see [`found_dir`]) and loaded.
pub open spec fn loaded(
    files: Seq<(Seq<char>, Seq<char>)>,
    search_paths: Seq<Seq<char>>,
    packages: Seq<(Seq<char>, PackageView)>,
    name: Seq<char>,
) -> Result<(Seq<(Seq<char>, PackageView)>, PackageView), PackageErrorView> {
    match package_of(packages, name) {
        Some(package) => Ok((packages, package)),
        None => match found_dir(files, search_paths, name, 0, None) {
            Err(e) => Err(e),
            Ok(dir) => match package_at(files, dir) {
                Err(e) => Err(e),
                Ok(package) => Ok((packages.push((name, package)), package)),
            },
        },
    }
}

/// The state of a resolution: the loaded packages, the names resolved so
/// far, and the error that stopped it, if any.
pub struct Resolution {
    pub packages: Seq<(Seq<char>, PackageView)>,
    pub resolved: Seq<Seq<char>>,
    pub error: Option<PackageErrorView>,
}

/// The state after the dependencies of a package are resolved: the
/// package is added to the resolved names, unless an error stopped the
/// resolution.
pub open spec fn concluded(after: Resolution, name: Seq<char>) -> Resolution {
    if after.error is Some {
        after
    } else {
        Resolution {
            packages: after.packages,
            resolved: after.resolved.push(name),
            error: None,
        }
    }
}

/// Resolves one package: a package that is being resolved further up is a
/// cycle; a package that is resolved already is skipped; otherwise the
/// package is loaded, its dependencies are resolved in ascending order of
/// their names, and then the package itself is added. `depth` bounds the
/// length of a chain of dependencies; a chain beyond it counts as a cycle.
pub open spec fn resolve_one(
    files: Seq<(Seq<char>, Seq<char>)>,
    search_paths: Seq<Seq<char>>,
    state: Resolution,
    name: Seq<char>,
    visiting: Seq<Seq<char>>,
    depth: nat,
) -> Resolution
    decreases depth, 0int, 0int,
{
    if has_key(visiting, name) || depth == 0 {
        Resolution {
            packages: state.packages,
            resolved: state.resolved,
            error: Some(PackageErrorView::CircularDependency { package: name }),
        }
    } else if has_key(state.resolved, name) {
        state
    } else {
        match loaded(files, search_paths, state.packages, name) {
            Err(e) => Resolution {
                packages: state.packages,
                resolved: state.resolved,
                error: Some(e),
            },
            Ok((packages, package)) => {
                concluded(
                    resolve_each(
                        files,
                        search_paths,
                        Resolution { packages, resolved: state.resolved, error: None },
                        pair_keys(package.manifest.dependencies),
                        0,
                        visiting.push(name),
                        (depth - 1) as nat,
                    ),
                    name,
                )
            },
        }
    }
}

/// Resolves the dependencies from position `from` on, in order, and stops
/// at the first error.
pub open spec fn resolve_each(
    files: Seq<(Seq<char>, Seq<char>)>,
    search_paths: Seq<Seq<char>>,
    state: Resolution,
    names: Seq<Seq<char>>,
    from: int,
    visiting: Seq<Seq<char>>,
    depth: nat,
) -> Resolution
    decreases depth, 1int, names.len() - from,
{
    if from < 0 || from >= names.len() {
        state
    } else {
        let after = resolve_one(files, search_paths, state, names[from], visiting, depth);
        if after.error is Some {
            after
        } else {
            resolve_each(files, search_paths, after, names, from + 1, visiting, depth)
        }
    }
}

/// What resolving a root package gives, on a registry: the names of all
/// the packages it needs, dependencies first, the root last.
pub open spec fn resolution_of(registry: RegistryView, root: Seq<char>) -> Resolution {
    resolve_one(
        registry.files,
        registry.search_paths,
        Resolution { packages: registry.packages, resolved: Seq::empty(), error: None },
        root,
        Seq::empty(),
        usize::MAX as nat,
    )
}

/// The types of a package from position `from` on, added to the
/// environment under their qualified names.
pub open spec fn qualified_types(
    namespace: Seq<char>,
    types: TypeTable,
    from: int,
    table: TypeTable,
) -> Result<TypeTable, PackageErrorView>
    decreases types.len() - from,
{
    if from < 0 || from >= types.len() {
        Ok(table)
    } else {
        let qualified = namespace + "."@ + types[from].0;
        if has_key(table_keys(table), qualified) {
            Err(PackageErrorView::TypeCollision { type_ident: qualified })
        } else {
            qualified_types(
                namespace,
                types,
                from + 1,
                table_with(table, qualified, types[from].1),
            )
        }
    }
}

/// The environment of the packages from position `from` on, added to the
/// environment built so far.
pub open spec fn environment_from(
    registry: RegistryView,
    names: Seq<Seq<char>>,
    from: int,
    table: TypeTable,
) -> Result<TypeTable, PackageErrorView>
    decreases names.len() - from,
{
    if from < 0 || from >= names.len() {
        Ok(table)
    } else {
        match package_of(registry.packages, names[from]) {
            None => Err(
                PackageErrorView::PackageNotFound {
                    name: names[from],
                    search_paths: registry.search_paths,
                },
            ),
            Some(package) => match qualified_types(
                package.manifest.name,
                package.schema,
                0,
                table,
            ) {
                Err(e) => Err(e),
                Ok(next) => environment_from(registry, names, from + 1, next),
            },
        }
    }
}

/// The environment of the named packages: every type of every package,
/// under the name of its package, a dot and its own name.
pub open spec fn environment_of(registry: RegistryView, names: Seq<Seq<char>>) -> Result<
    TypeTable,
    PackageErrorView,
> {
    environment_from(registry, names, 0, Seq::empty())
}

/// Whether `s` is one of the texts.
fn has_text(items: &Vec<String>, s: &str) -> (r: bool)
    ensures
        r == has_key(texts_of(items@), s@),
{
    let mut i: usize = 0;
    while i < items.len()
        invariant
            i <= items.len(),
            key_index(texts_of(items@), s@, 0) == key_index(texts_of(items@), s@, i as int),
        decreases items.len() - i,
    {
        if str_eq(items[i].as_str(), s) {
            return true;
        }
        i += 1;
    }
    false
}

impl PackageRegistry {
    /// Whether the registry is well formed: no package is loaded twice.
    pub open spec fn well_formed(&self) -> bool {
        crate::assoc::distinct(pair_keys(self@.packages))
    }

    /// A registry without search paths, files or packages.
    pub fn new() -> (r: PackageRegistry)
        ensures
            r@ == (RegistryView {
                search_paths: Seq::empty(),
                files: Seq::empty(),
                packages: Seq::empty(),
            }),
            r.well_formed(),
    {
        let r = PackageRegistry {
            search_paths: Vec::new(),
            files: FileStore::new(),
            packages: Vec::new(),
        };
        assert(r@.search_paths =~= Seq::<Seq<char>>::empty());
        assert(r@.packages =~= Seq::<(Seq<char>, PackageView)>::empty());
        r
    }

    /// Adds a directory in which packages are searched, after those added
    /// before.
    pub fn add_search_path(&mut self, path: String)
        ensures
            final(self)@ == (RegistryView {
                search_paths: old(self)@.search_paths.push(path@),
                files: old(self)@.files,
                packages: old(self)@.packages,
            }),
    {
        self.search_paths.push(path);
        assert(self@.search_paths =~= old(self)@.search_paths.push(path@));
    }

    /// Sets the text of the file at a path.
    pub fn add_file(&mut self, path: &str, content: &str)
        ensures
            final(self)@ == (RegistryView {
                search_paths: old(self)@.search_paths,
                files: assigned(
                    old(self)@.files,
                    pair_keys(old(self)@.files),
                    path@,
                    (path@, content@),
                ),
                packages: old(self)@.packages,
            }),
    {
        self.files.add_file(path, content);
    }

    /// The directory of a package, searched as [`found_dir`] says.
    fn find_dir(&self, name: &str) -> (r: Result<String, PackageError>)
        ensures
            match found_dir(self@.files, self@.search_paths, name@, 0, None) {
                Ok(dir) => r is Ok && r->Ok_0@ == dir,
                Err(e) => r is Err && r->Err_0@ == e,
            },
    {
        let mut other: Option<String> = None;
        let mut i: usize = 0;
        while i < self.search_paths.len()
            invariant
                i <= self.search_paths.len(),
                found_dir(self@.files, self@.search_paths, name@, 0, None) == found_dir(
                    self@.files,
                    self@.search_paths,
                    name@,
                    i as int,
                    text_opt(other),
                ),
            decreases self.search_paths.len() - i,
        {
            assert(self@.search_paths[i as int] == self.search_paths[i as int]@);
            let dir = join_path(self.search_paths[i].as_str(), name);
            let path = join_path(dir.as_str(), "hel-package.toml");
            match self.files.read(path.as_str()) {
                None => {},
                Some(content) => {
                    let manifest = match PackageManifest::from_toml(content.as_str()) {
                        Err(e) => {
                            return Err(e);
                        },
                        Ok(manifest) => manifest,
                    };
                    if str_eq(manifest.name.as_str(), name) {
                        return Ok(dir);
                    }
                    if other.is_none() {
                        other = Some(manifest.name);
                    }
                },
            }
            i += 1;
        }
        match other {
            Some(found) => Err(PackageError::NameMismatch { expected: name.to_owned(), found }),
            None => Err(
                PackageError::PackageNotFound {
                    name: name.to_owned(),
                    search_paths: clone_strings(&self.search_paths),
                },
            ),
        }
    }

    /// Loads a package by name, unless it is loaded already, and returns a
    /// copy of it. The search paths are tried in order: the first directory
    /// of that name whose manifest carries the name is loaded, and a
    /// directory whose manifest names another package is passed over. Where
    /// none is found the error is `NameMismatch` with the first other name
    /// that was met, or `PackageNotFound` where there was no manifest at
    /// all. On an error the registry is as it was.
    pub fn load_package(&mut self, name: &str) -> (r: Result<SchemaPackage, PackageError>)
        ensures
            final(self)@.search_paths == old(self)@.search_paths,
            final(self)@.files == old(self)@.files,
            old(self).well_formed() ==> final(self).well_formed(),
            match loaded(old(self)@.files, old(self)@.search_paths, old(self)@.packages, name@) {
                Ok((packages, package)) => r is Ok && r->Ok_0@ == package && final(self)@.packages
                    == packages,
                Err(e) => r is Err && r->Err_0@ == e && final(self)@.packages
                    == old(self)@.packages,
            },
    {
        assert(keys_of(self.packages@) =~= pair_keys(self@.packages));
        match position(&self.packages, name) {
            Some(i) => {
                return Ok(self.packages[i].1.clone());
            },
            None => {},
        }
        let dir = match self.find_dir(name) {
            Err(e) => {
                return Err(e);
            },
            Ok(dir) => dir,
        };
        let package = match SchemaPackage::from_directory(&self.files, dir.as_str()) {
            Err(e) => {
                return Err(e);
            },
            Ok(package) => package,
        };
        let copy = package.clone();
        let ghost before = package_views(self.packages@);
        self.packages.push((name.to_owned(), package));
        assert(package_views(self.packages@) =~= before.push((name@, copy@)));
        proof {
            assert(pair_keys(self@.packages) =~= pair_keys(before).push(name@));
            if old(self).well_formed() {
                crate::assoc::lemma_pushed_distinct(pair_keys(before), name@);
            }
        }
        Ok(copy)
    }

    /// Resolves one package and, first, its dependencies.
    fn resolve_recursive(
        &mut self,
        package_name: &str,
        resolved: &mut Vec<String>,
        visiting: &mut Vec<String>,
        depth: usize,
    ) -> (r: Result<(), PackageError>)
        ensures
            final(self)@.search_paths == old(self)@.search_paths,
            final(self)@.files == old(self)@.files,
            old(self).well_formed() ==> final(self).well_formed(),
            ({
                let out = resolve_one(
                    old(self)@.files,
                    old(self)@.search_paths,
                    Resolution {
                        packages: old(self)@.packages,
                        resolved: texts_of(old(resolved)@),
                        error: None,
                    },
                    package_name@,
                    texts_of(old(visiting)@),
                    depth as nat,
                );
                &&& final(self)@.packages == out.packages
                &&& texts_of(final(resolved)@) == out.resolved
                &&& match out.error {
                    None => r is Ok && texts_of(final(visiting)@) == texts_of(old(visiting)@),
                    Some(e) => r is Err && r->Err_0@ == e,
                }
            }),
        decreases depth,
    {
        if has_text(visiting, package_name) || depth == 0 {
            return Err(PackageError::CircularDependency { package: package_name.to_owned() });
        }
        if has_text(resolved, package_name) {
            return Ok(());
        }
        let package = match self.load_package(package_name) {
            Err(e) => {
                return Err(e);
            },
            Ok(package) => package,
        };
        let ghost files = self@.files;
        let ghost paths = self@.search_paths;
        let ghost names = pair_keys(package@.manifest.dependencies);
        let ghost start = Resolution {
            packages: self@.packages,
            resolved: texts_of(resolved@),
            error: None,
        };
        let ghost outer = texts_of(visiting@);
        let ghost goal = resolve_one(
            old(self)@.files,
            old(self)@.search_paths,
            Resolution {
                packages: old(self)@.packages,
                resolved: texts_of(old(resolved)@),
                error: None,
            },
            package_name@,
            texts_of(old(visiting)@),
            depth as nat,
        );
        visiting.push(package_name.to_owned());
        let ghost inner = outer.push(package_name@);
        assert(texts_of(visiting@) =~= inner);
        assert(goal == concluded(
            resolve_each(files, paths, start, names, 0, inner, (depth - 1) as nat),
            package_name@,
        ));
        let mut i: usize = 0;
        while i < package.manifest.dependencies.len()
            invariant
                old(self).well_formed() ==> self.well_formed(),
                i <= package.manifest.dependencies.len(),
                depth > 0,
                files == self@.files,
                paths == self@.search_paths,
                files == old(self)@.files,
                paths == old(self)@.search_paths,
                outer == texts_of(old(visiting)@),
                inner == outer.push(package_name@),
                visiting@.len() > 0,
                goal == resolve_one(
                    old(self)@.files,
                    old(self)@.search_paths,
                    Resolution {
                        packages: old(self)@.packages,
                        resolved: texts_of(old(resolved)@),
                        error: None,
                    },
                    package_name@,
                    texts_of(old(visiting)@),
                    depth as nat,
                ),
                goal == concluded(
                    resolve_each(files, paths, start, names, 0, inner, (depth - 1) as nat),
                    package_name@,
                ),
                names == pair_keys(package@.manifest.dependencies),
                texts_of(visiting@) == inner,
                resolve_each(files, paths, start, names, 0, inner, (depth - 1) as nat)
                    == resolve_each(
                    files,
                    paths,
                    Resolution {
                        packages: self@.packages,
                        resolved: texts_of(resolved@),
                        error: None,
                    },
                    names,
                    i as int,
                    inner,
                    (depth - 1) as nat,
                ),
            decreases package.manifest.dependencies.len() - i,
        {
            let dependency = &package.manifest.dependencies[i].0;
            assert(names[i as int] == dependency@);
            match self.resolve_recursive(dependency.as_str(), resolved, visiting, depth - 1) {
                Err(e) => {
                    return Err(e);
                },
                Ok(()) => {},
            }
            i += 1;
        }
        let ghost pushed = visiting@;
        let _ = visiting.pop();
        assert(visiting@ =~= pushed.drop_last());
        assert(texts_of(pushed) == inner);
        assert(texts_of(visiting@) =~= texts_of(pushed).drop_last());
        assert(inner.drop_last() =~= outer);
        assert(texts_of(visiting@) =~= outer);
        let ghost before = texts_of(resolved@);
        resolved.push(package_name.to_owned());
        assert(texts_of(resolved@) =~= before.push(package_name@));
        Ok(())
    }

    /// Resolves a root package with all its dependencies, loading what is
    /// not loaded yet. Returns the names in the order in which the packages
    /// can be used: dependencies first, the root last.
    pub fn resolve_all(&mut self, root_package: &str) -> (r: Result<Vec<String>, PackageError>)
        ensures
            final(self)@.search_paths == old(self)@.search_paths,
            final(self)@.files == old(self)@.files,
            old(self).well_formed() ==> final(self).well_formed(),
            final(self)@.packages == resolution_of(old(self)@, root_package@).packages,
            match resolution_of(old(self)@, root_package@).error {
                None => r is Ok && texts_of(r->Ok_0@) == resolution_of(
                    old(self)@,
                    root_package@,
                ).resolved,
                Some(e) => r is Err && r->Err_0@ == e,
            },
    {
        let mut resolved: Vec<String> = Vec::new();
        let mut visiting: Vec<String> = Vec::new();
        assert(texts_of(resolved@) =~= Seq::<Seq<char>>::empty());
        assert(texts_of(visiting@) =~= Seq::<Seq<char>>::empty());
        match self.resolve_recursive(root_package, &mut resolved, &mut visiting, usize::MAX) {
            Err(e) => Err(e),
            Ok(()) => Ok(resolved),
        }
    }

    /// The loaded package of a name, if there is one.
    pub fn get_package(&self, name: &str) -> (r: Option<&SchemaPackage>)
        ensures
            match r {
                Some(package) => package_of(self@.packages, name@) == Some(package@),
                None => package_of(self@.packages, name@) is None,
            },
    {
        assert(keys_of(self.packages@) =~= pair_keys(self@.packages));
        match position(&self.packages, name) {
            Some(i) => Some(&self.packages[i].1),
            None => None,
        }
    }

    /// Builds the environment of the named packages, which must be loaded.
    /// The types of the environment ascend by their qualified names.
    pub fn build_type_environment(&self, package_names: &[String]) -> (r: Result<
        TypeEnvironment,
        PackageError,
    >)
        ensures
            match environment_of(self@, texts_of(package_names@)) {
                Ok(table) => r is Ok && r->Ok_0@ == table && r->Ok_0.well_formed(),
                Err(e) => r is Err && r->Err_0@ == e,
            },
    {
        let mut types: Vec<(String, TypeDef)> = Vec::new();
        let ghost names = texts_of(package_names@);
        let ghost registry = self@;
        assert(table_view(types@) =~= Seq::<(Seq<char>, TypeDefView)>::empty());
        let mut i: usize = 0;
        while i < package_names.len()
            invariant
                i <= package_names.len(),
                names == texts_of(package_names@),
                registry == self@,
                ascending(table_keys(table_view(types@))),
                environment_of(registry, names) == environment_from(
                    registry,
                    names,
                    i as int,
                    table_view(types@),
                ),
            decreases package_names.len() - i,
        {
            assert(names[i as int] == package_names[i as int]@);
            let package = match self.get_package(package_names[i].as_str()) {
                None => {
                    return Err(
                        PackageError::PackageNotFound {
                            name: package_names[i].clone(),
                            search_paths: clone_strings(&self.search_paths),
                        },
                    );
                },
                Some(package) => package,
            };
            let ghost schema = package@.schema;
            let ghost namespace = package@.manifest.name;
            let ghost before = table_view(types@);
            let mut j: usize = 0;
            while j < package.schema.types.len()
                invariant
                    j <= package.schema.types.len(),
                    i < package_names.len(),
                    names == texts_of(package_names@),
                    registry == self@,
                    schema == package@.schema,
                    namespace == package@.manifest.name,
                    package_of(registry.packages, names[i as int]) == Some(package@),
                    ascending(table_keys(table_view(types@))),
                    qualified_types(namespace, schema, 0, before) == qualified_types(
                        namespace,
                        schema,
                        j as int,
                        table_view(types@),
                    ),
                    environment_of(registry, names) == environment_from(
                        registry,
                        names,
                        i as int,
                        before,
                    ),
                decreases package.schema.types.len() - j,
            {
                let entry = &package.schema.types[j];
                assert(schema[j as int] == (entry.0@, entry.1@));
                let mut qualified: Vec<char> = Vec::new();
                push_str(&mut qualified, package.namespace());
                push_str(&mut qualified, ".");
                push_str(&mut qualified, entry.0.as_str());
                assert(qualified@ =~= namespace + "."@ + entry.0@);
                let qualified = string_of(&qualified);
                assert(keys_of(types@) =~= table_keys(table_view(types@)));
                if position(&types, qualified.as_str()).is_some() {
                    return Err(PackageError::TypeCollision { type_ident: qualified });
                }
                let ghost keys = table_keys(table_view(types@));
                proof {
                    lemma_placed_keys(keys, qualified@);
                    lemma_lower_bound(keys, qualified@, 0);
                }
                place_type(&mut types, qualified, entry.1.clone());
                assert(table_keys(table_view(types@)) =~= placed(keys, keys, qualified@, qualified@));
                j += 1;
            }
            i += 1;
        }
        Ok(TypeEnvironment { types })
    }
}

impl Default for PackageRegistry {
    fn default() -> (r: PackageRegistry)
        ensures
            r@ == (RegistryView {
                search_paths: Seq::empty(),
                files: Seq::empty(),
                packages: Seq::empty(),
            }),
    {
        PackageRegistry::new()
    }
}

/// Adding the types of a package to an environment whose names ascend
/// gives an environment whose names ascend.
pub proof fn lemma_qualified_types_ascend(
    namespace: Seq<char>,
    types: TypeTable,
    from: int,
    table: TypeTable,
)
    requires
        0 <= from,
        ascending(table_keys(table)),
    ensures
        qualified_types(namespace, types, from, table) is Ok ==> ascending(
            table_keys(qualified_types(namespace, types, from, table)->Ok_0),
        ),
    decreases types.len() - from,
{
    if from < types.len() {
        let qualified = namespace + "."@ + types[from].0;
        if !has_key(table_keys(table), qualified) {
            let keys = table_keys(table);
            let next = table_with(table, qualified, types[from].1);
            lemma_placed_keys(keys, qualified);
            lemma_lower_bound(keys, qualified, 0);
            assert(table_keys(next) =~= placed(keys, keys, qualified, qualified));
            lemma_qualified_types_ascend(namespace, types, from + 1, next);
        }
    }
}

/// Adding the types of packages to an environment whose names ascend
/// gives an environment whose names ascend.
pub proof fn lemma_environment_ascends(
    registry: RegistryView,
    names: Seq<Seq<char>>,
    from: int,
    table: TypeTable,
)
    requires
        0 <= from,
        ascending(table_keys(table)),
    ensures
        environment_from(registry, names, from, table) is Ok ==> ascending(
            table_keys(environment_from(registry, names, from, table)->Ok_0),
        ),
    decreases names.len() - from,
{
    if from < names.len() {
        match package_of(registry.packages, names[from]) {
            None => {},
            Some(package) => {
                lemma_qualified_types_ascend(package.manifest.name, package.schema, 0, table);
                match qualified_types(package.manifest.name, package.schema, 0, table) {
                    Err(_) => {},
                    Ok(next) => {
                        lemma_environment_ascends(registry, names, from + 1, next);
                    },
                }
            },
        }
    }
}

/// Resolution and the building of the environment are functions of the
/// registry and the names alone: two registries with the same contents give
/// the same order of packages and the same environment, and the qualified
/// names of the environment stand in ascending order, whatever the order
/// in which the packages were named or loaded.
pub proof fn lemma_environment_is_determined(
    first: RegistryView,
    second: RegistryView,
    root: Seq<char>,
    names: Seq<Seq<char>>,
)
    requires
        first == second,
    ensures
        resolution_of(first, root) == resolution_of(second, root),
        environment_of(first, names) == environment_of(second, names),
        environment_of(first, names) is Ok ==> ascending(
            table_keys(environment_of(first, names)->Ok_0),
        ),
{
    assert(table_keys(Seq::<(Seq<char>, TypeDefView)>::empty()) =~= Seq::<Seq<char>>::empty());
    lemma_environment_ascends(first, names, 0, Seq::empty());
}

} // verus!
