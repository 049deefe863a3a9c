//! Packages: manifests, loading from a file store, dependency resolution,
//! type environments.

use hel::schema::package::{extract_imports, PackageError, PackageManifest};
use hel::schema::registry::{join_path, FileStore, PackageRegistry, SchemaPackage};

fn manifest_text(name: &str, deps: &[(&str, &str)]) -> String {
    let mut manifest = format!(
        r#"
name = "{}"
version = "0.1.0"
schemas = ["schema/00_domain.hel"]
"#,
        name
    );

    if !deps.is_empty() {
        manifest.push_str("\n[dependencies]\n");
        for (dep_name, dep_version) in deps {
            manifest.push_str(&format!("{} = \"{}\"\n", dep_name, dep_version));
        }
    }
    manifest
}

fn schema_text(name: &str) -> String {
    format!(
        r#"
type {}Type {{
    value: String
}}
"#,
        name.replace('-', "_")
    )
}

fn create_test_package(registry: &mut PackageRegistry, dir: &str, name: &str, deps: &[(&str, &str)]) {
    registry.add_file(&join_path(dir, "hel-package.toml"), &manifest_text(name, deps));
    registry.add_file(&join_path(dir, "schema/00_domain.hel"), &schema_text(name));
}

#[test]
fn test_package_manifest_parse() {
    let toml = r#"
name = "test-package"
version = "1.0.0"
schemas = ["schema/00_domain.hel"]

[dependencies]
other-package = "0.1.0"
"#;

    let manifest = PackageManifest::from_toml(toml).expect("parse failed");
    assert_eq!(manifest.name, "test-package");
    assert_eq!(manifest.version, "1.0.0");
    assert_eq!(manifest.schemas.len(), 1);
    assert_eq!(manifest.dependencies.len(), 1);
}

#[test]
fn test_extract_imports() {
    let content = r#"
import "core-types";
import "security-binary";

type MyType {
    field: String
}
"#;

    let imports = extract_imports(content);
    assert_eq!(imports.len(), 2);
    assert_eq!(imports[0], "core-types");
    assert_eq!(imports[1], "security-binary");
}

#[test]
fn test_package_loading() {
    let mut store = FileStore::new();
    store.add_file("tmp/test-pkg/hel-package.toml", &manifest_text("test-pkg", &[]));
    store.add_file("tmp/test-pkg/schema/00_domain.hel", &schema_text("test-pkg"));

    let package = SchemaPackage::from_directory(&store, "tmp/test-pkg").expect("load failed");
    assert_eq!(package.manifest.name, "test-pkg");
    assert_eq!(package.schema.types.len(), 1);
    assert_eq!(package.root_path, "tmp/test-pkg");
}

#[test]
fn test_package_registry_loading() {
    let mut registry = PackageRegistry::new();
    registry.add_search_path("tmp".to_string());
    create_test_package(&mut registry, "tmp/test-pkg", "test-pkg", &[]);

    let package = registry.load_package("test-pkg").expect("load failed");
    assert_eq!(package.manifest.name, "test-pkg");
}

#[test]
fn test_dependency_resolution() {
    let mut registry = PackageRegistry::new();
    registry.add_search_path("tmp".to_string());

    // Create base package
    create_test_package(&mut registry, "tmp/base-pkg", "base-pkg", &[]);

    // Create dependent package
    create_test_package(&mut registry, "tmp/dep-pkg", "dep-pkg", &[("base-pkg", "0.1.0")]);

    let resolved = registry.resolve_all("dep-pkg").expect("resolution failed");
    assert_eq!(resolved.len(), 2);
    assert_eq!(resolved[0], "base-pkg"); // dependency first
    assert_eq!(resolved[1], "dep-pkg");
}

#[test]
fn test_type_environment_building() {
    let mut registry = PackageRegistry::new();
    registry.add_search_path("tmp".to_string());
    create_test_package(&mut registry, "tmp/test-pkg", "test-pkg", &[]);

    let resolved = registry.resolve_all("test-pkg").expect("resolution failed");
    let env = registry.build_type_environment(&resolved).expect("environment failed");

    // Type should be qualified as "test-pkg.test_pkgType"
    assert!(env.get_type("test-pkg.test_pkgType").is_some());
}

#[test]
fn test_circular_dependency_detection() {
    let mut registry = PackageRegistry::new();
    registry.add_search_path("tmp".to_string());

    // Create pkg-a depending on pkg-b
    create_test_package(&mut registry, "tmp/pkg-a", "pkg-a", &[("pkg-b", "0.1.0")]);

    // Create pkg-b depending on pkg-a (circular!)
    create_test_package(&mut registry, "tmp/pkg-b", "pkg-b", &[("pkg-a", "0.1.0")]);

    let result = registry.resolve_all("pkg-a");
    assert!(result.is_err());
    assert!(matches!(result.unwrap_err(), PackageError::CircularDependency { .. }));
}

const SECURITY_MANIFEST: &str = r#"
name = "security-binary"
version = "0.1.0"
schemas = ["schema/00_binary.hel", "schema/10_analysis.hel"]
builtins_namespace = "security"
"#;

const SECURITY_BINARY_SCHEMA: &str = r#"
// Static facts about a binary
type Binary {
    format: String
    arch: String
    entry_point: Number
    file_size: Number
    sections: List<Section>
    imports: List<Import>
}

type Security {
    pie: Bool
    nx: Bool
    relro: String
    stack_canary: Boolean
}

type Section {
    name: String
    size: Number
    entropy: f64
    executable?: Bool
}

type Import {
    symbol: String
    library?: String
}

type Export {
    symbol: String
    address: Number
}
"#;

const SECURITY_ANALYSIS_SCHEMA: &str = r#"
# Results of analysis passes
type TaintFlow {
    source: String
    sink: String
    path: List<String>
    confidence: Float
}

type Symbol {
    name: String
    demangled?: String
}

type StringRef {
    value: String
    offset: Number
}

type Finding {
    rule: String
    severity: String
    tags: Map<String>,
    flows: List<TaintFlow>
}
"#;

const SALES_MANIFEST: &str = r#"
name = "sales-crm"
version = "0.1.0"
schemas = ["schema/00_domain.hel"]
"#;

const SALES_SCHEMA: &str = r#"
type Lead {
    vertical: String
    stage: String
    score: Number
    contacts: List<Contact>
}

type Contact {
    email: String
    name: String
    title?: String
}

type Enrichment {
    confidence: Number
    source: String
    data: Map<String>
}
"#;

fn domains_registry() -> PackageRegistry {
    let mut registry = PackageRegistry::new();
    registry.add_search_path("domains".to_string());
    registry.add_file("domains/security-binary/hel-package.toml", SECURITY_MANIFEST);
    registry.add_file("domains/security-binary/schema/00_binary.hel", SECURITY_BINARY_SCHEMA);
    registry.add_file("domains/security-binary/schema/10_analysis.hel", SECURITY_ANALYSIS_SCHEMA);
    registry.add_file("domains/sales-crm/hel-package.toml", SALES_MANIFEST);
    registry.add_file("domains/sales-crm/schema/00_domain.hel", SALES_SCHEMA);
    registry
}

#[test]
fn test_load_security_binary_package() {
    let mut registry = domains_registry();

    let package = registry
        .load_package("security-binary")
        .expect("Failed to load security-binary package");

    assert_eq!(package.manifest.name, "security-binary");
    assert_eq!(package.manifest.version, "0.1.0");

    // Check that types are loaded
    assert!(package.schema.get_type("Binary").is_some());
    assert!(package.schema.get_type("Security").is_some());
    assert!(package.schema.get_type("Section").is_some());
    assert!(package.schema.get_type("Import").is_some());
    assert!(package.schema.get_type("TaintFlow").is_some());
}

#[test]
fn test_load_sales_crm_package() {
    let mut registry = domains_registry();

    let package = registry.load_package("sales-crm").expect("Failed to load sales-crm package");

    assert_eq!(package.manifest.name, "sales-crm");
    assert_eq!(package.manifest.version, "0.1.0");

    // Check that types are loaded
    assert!(package.schema.get_type("Lead").is_some());
    assert!(package.schema.get_type("Contact").is_some());
    assert!(package.schema.get_type("Enrichment").is_some());
}

#[test]
fn test_build_type_environment_with_multiple_packages() {
    let mut registry = domains_registry();

    // Load both packages
    registry.load_package("security-binary").expect("Failed to load security-binary");
    registry.load_package("sales-crm").expect("Failed to load sales-crm");

    // Build type environment
    let env = registry
        .build_type_environment(&["security-binary".to_string(), "sales-crm".to_string()])
        .expect("Failed to build type environment");

    // Check qualified type names
    assert!(env.get_type("security-binary.Binary").is_some());
    assert!(env.get_type("security-binary.Section").is_some());
    assert!(env.get_type("sales-crm.Lead").is_some());
    assert!(env.get_type("sales-crm.Contact").is_some());
}

#[test]
fn test_package_namespace_separation() {
    let mut registry = domains_registry();

    // Load packages
    registry.load_package("security-binary").expect("Failed to load");
    registry.load_package("sales-crm").expect("Failed to load");

    // Get packages after loading
    let sec = registry.get_package("security-binary").expect("Package not found");
    let sales = registry.get_package("sales-crm").expect("Package not found");

    // Namespaces should match package names
    assert_eq!(sec.namespace(), "security-binary");
    assert_eq!(sales.namespace(), "sales-crm");
    assert_eq!(sec.builtins_namespace(), "security");
    assert_eq!(sales.builtins_namespace(), "sales-crm");

    // Build environment and ensure no collisions
    let env = registry
        .build_type_environment(&["security-binary".to_string(), "sales-crm".to_string()])
        .expect("Failed to build environment");

    // All types should be qualified
    let type_count = env.types.len();
    assert!(type_count > 10, "Expected multiple types from both packages");
}

#[test]
fn sales_crm_environment_holds_its_three_types_only() {
    let mut registry = domains_registry();
    registry.load_package("sales-crm").expect("Failed to load");
    let env = registry.build_type_environment(&["sales-crm".to_string()]).expect("environment");
    let names: Vec<&str> = env.types.iter().map(|(name, _)| name.as_str()).collect();
    assert_eq!(names, vec!["sales-crm.Contact", "sales-crm.Enrichment", "sales-crm.Lead"]);
    // The references inside the package are not qualified, so the environment
    // does not validate.
    match env.validate() {
        Err(PackageError::UndefinedTypeReference { type_ident, context }) => {
            assert_eq!(type_ident, "Contact");
            assert_eq!(context, "sales-crm.Lead");
        }
        other => panic!("unexpected {:?}", other),
    }
}

#[test]
fn a_cycle_is_reported_from_both_roots() {
    for root in ["pkg-a", "pkg-b"] {
        let mut registry = PackageRegistry::new();
        registry.add_search_path("tmp".to_string());
        create_test_package(&mut registry, "tmp/pkg-a", "pkg-a", &[("pkg-b", "0.1.0")]);
        create_test_package(&mut registry, "tmp/pkg-b", "pkg-b", &[("pkg-a", "0.1.0")]);
        match registry.resolve_all(root) {
            Err(PackageError::CircularDependency { package }) => assert_eq!(package, root),
            other => panic!("unexpected {:?}", other),
        }
    }
}

#[test]
fn resolution_orders_dependencies_first_and_by_name() {
    let mut registry = PackageRegistry::new();
    registry.add_search_path("first".to_string());
    registry.add_search_path("second".to_string());
    create_test_package(&mut registry, "second/app", "app", &[("zeta", "*"), ("alpha", ">=1"), ("mid", "1")]);
    create_test_package(&mut registry, "first/alpha", "alpha", &[]);
    create_test_package(&mut registry, "second/mid", "mid", &[("alpha", "0.0.1")]);
    create_test_package(&mut registry, "second/zeta", "zeta", &[("mid", "9")]);
    let resolved = registry.resolve_all("app").expect("resolution failed");
    assert_eq!(resolved, vec!["alpha", "mid", "zeta", "app"]);
    // A second run gives the same order, and the same environment.
    let again = registry.resolve_all("app").expect("resolution failed");
    assert_eq!(again, resolved);
    let env = registry.build_type_environment(&resolved).expect("environment");
    let env_again = registry.build_type_environment(&again).expect("environment");
    assert_eq!(env, env_again);
    let names: Vec<&str> = env.types.iter().map(|(name, _)| name.as_str()).collect();
    assert_eq!(names, vec!["alpha.alphaType", "app.appType", "mid.midType", "zeta.zetaType"]);
    // Version requirements are kept, and not enforced.
    let app = registry.get_package("app").expect("loaded");
    assert_eq!(
        app.manifest.dependencies,
        vec![
            ("alpha".to_string(), ">=1".to_string()),
            ("mid".to_string(), "1".to_string()),
            ("zeta".to_string(), "*".to_string()),
        ]
    );
}

#[test]
fn package_errors_name_what_went_wrong() {
    let mut registry = PackageRegistry::new();
    registry.add_search_path("tmp".to_string());

    // No such package.
    match registry.load_package("ghost") {
        Err(PackageError::PackageNotFound { name, search_paths }) => {
            assert_eq!(name, "ghost");
            assert_eq!(search_paths, vec!["tmp".to_string()]);
        }
        other => panic!("unexpected {:?}", other),
    }
    assert_eq!(
        registry.load_package("ghost").unwrap_err().message(),
        "Package 'ghost' not found in search paths: [\"tmp\"]"
    );

    // The manifest names another package.
    create_test_package(&mut registry, "tmp/wrong", "right", &[]);
    match registry.load_package("wrong") {
        Err(PackageError::NameMismatch { expected, found }) => {
            assert_eq!(expected, "wrong");
            assert_eq!(found, "right");
        }
        other => panic!("unexpected {:?}", other),
    }

    // The manifest is not TOML.
    registry.add_file("tmp/broken/hel-package.toml", "name = ");
    assert!(matches!(registry.load_package("broken"), Err(PackageError::ManifestParse(_))));

    // A schema file is missing.
    registry.add_file("tmp/half/hel-package.toml", &manifest_text("half", &[]));
    match registry.load_package("half") {
        Err(PackageError::Io(message)) => {
            assert_eq!(message, "Failed to read schema tmp/half/schema/00_domain.hel: file not found");
        }
        other => panic!("unexpected {:?}", other),
    }

    // A schema file does not parse.
    registry.add_file("tmp/half/schema/00_domain.hel", "type Broken\n");
    match registry.load_package("half") {
        Err(PackageError::SchemaParse { package, file, error }) => {
            assert_eq!(package, "half");
            assert_eq!(file, "schema/00_domain.hel");
            assert_eq!(error, "Invalid type definition: type Broken");
        }
        other => panic!("unexpected {:?}", other),
    }

    // Two schema files define the same type.
    registry.add_file(
        "tmp/twice/hel-package.toml",
        "name = \"twice\"\nversion = \"1\"\nschemas = [\"a.hel\", \"b.hel\"]\n",
    );
    registry.add_file("tmp/twice/a.hel", "type Same {\n x: String\n}\n");
    registry.add_file("tmp/twice/b.hel", "import \"other\";\ntype Same {\n y: Number\n}\n");
    match registry.load_package("twice") {
        Err(PackageError::DuplicateType { package, type_ident }) => {
            assert_eq!(package, "twice");
            assert_eq!(type_ident, "Same");
        }
        other => panic!("unexpected {:?}", other),
    }

    // Two packages give a type the same qualified name.
    registry.add_file("tmp/a.b/hel-package.toml", "name = \"a.b\"\nversion = \"1\"\nschemas = [\"s.hel\"]\n");
    registry.add_file("tmp/a.b/s.hel", "type C {\n x: String\n}\n");
    registry.add_file("tmp/a/hel-package.toml", "name = \"a\"\nversion = \"1\"\nschemas = [\"s.hel\"]\n");
    registry.add_file("tmp/a/s.hel", "type b.C {\n x: String\n}\n");
    registry.load_package("a.b").expect("load");
    registry.load_package("a").expect("load");
    match registry.build_type_environment(&["a".to_string(), "a.b".to_string()]) {
        Err(PackageError::TypeCollision { type_ident }) => assert_eq!(type_ident, "a.b.C"),
        other => panic!("unexpected {:?}", other),
    }

    // A package that is not loaded cannot be part of an environment.
    assert!(matches!(
        registry.build_type_environment(&["nowhere".to_string()]),
        Err(PackageError::PackageNotFound { .. })
    ));
    // After a failed load the registry holds what it held before.
    assert!(registry.get_package("twice").is_none());
    assert!(registry.get_package("a").is_some());
}

#[test]
fn manifests_are_read_field_by_field() {
    let full = PackageManifest::from_toml(
        "name = \"p\"\nversion = \"2.0\"\nschemas = []\nbuiltins_namespace = \"ns\"\nextra = 1\n[dependencies]\nb = \"1\"\na = \"2\"\n",
    )
    .expect("manifest");
    assert_eq!(full.name, "p");
    assert_eq!(full.version, "2.0");
    assert!(full.schemas.is_empty());
    assert_eq!(full.builtins_namespace, Some("ns".to_string()));
    assert_eq!(
        full.dependencies,
        vec![("a".to_string(), "2".to_string()), ("b".to_string(), "1".to_string())]
    );

    let cases = [
        ("version = \"1\"\nschemas = []\n", "missing field `name`"),
        ("name = \"p\"\nschemas = []\n", "missing field `version`"),
        ("name = \"p\"\nversion = \"1\"\n", "missing field `schemas`"),
        ("name = 1\nversion = \"1\"\nschemas = []\n", "invalid type for field `name`: expected a string"),
        (
            "name = \"p\"\nversion = \"1\"\nschemas = [\"a\", 2]\n",
            "invalid type for field `schemas`: expected an array of strings",
        ),
        (
            "name = \"p\"\nversion = \"1\"\nschemas = \"a\"\n",
            "invalid type for field `schemas`: expected an array of strings",
        ),
        (
            "name = \"p\"\nversion = \"1\"\nschemas = []\ndependencies = 3\n",
            "invalid type for field `dependencies`: expected a table of strings",
        ),
        (
            "name = \"p\"\nversion = \"1\"\nschemas = []\n[dependencies]\na = 1\n",
            "invalid type for field `dependencies`: expected a table of strings",
        ),
        (
            "name = \"p\"\nversion = \"1\"\nschemas = []\nbuiltins_namespace = true\n",
            "invalid type for field `builtins_namespace`: expected a string",
        ),
    ];
    for (text, expected) in cases {
        match PackageManifest::from_toml(text) {
            Err(PackageError::ManifestParse(message)) => assert_eq!(message, expected),
            other => panic!("unexpected {:?}", other),
        }
    }
    // The table of a document can be read by itself.
    let table: toml::Table = "name = \"t\"\nversion = \"0\"\nschemas = [\"x.hel\"]\n".parse().unwrap();
    let manifest = PackageManifest::from_table(&table).expect("manifest");
    assert_eq!(manifest.schemas, vec!["x.hel".to_string()]);
}

#[test]
fn a_manifest_is_read_from_a_file_of_the_store() {
    let mut store = FileStore::new();
    store.add_file("pkgs/one/hel-package.toml", &manifest_text("one", &[("two", "1.0")]));
    let manifest =
        PackageManifest::from_file(&store, "pkgs/one/hel-package.toml").expect("manifest");
    assert_eq!(manifest.name, "one");
    assert_eq!(manifest.dependencies, vec![("two".to_string(), "1.0".to_string())]);

    // A file that was added again holds what was added last.
    store.add_file("pkgs/one/hel-package.toml", &manifest_text("renamed", &[]));
    let manifest =
        PackageManifest::from_file(&store, "pkgs/one/hel-package.toml").expect("manifest");
    assert_eq!(manifest.name, "renamed");
    assert_eq!(store.read("pkgs/one/hel-package.toml"), Some(&manifest_text("renamed", &[])));

    // A path that the store lacks.
    match PackageManifest::from_file(&store, "pkgs/none/hel-package.toml") {
        Err(PackageError::Io(message)) => {
            assert_eq!(message, "Failed to read manifest at pkgs/none/hel-package.toml: file not found")
        }
        other => panic!("unexpected {:?}", other),
    }
    assert_eq!(join_path("pkgs/one", "hel-package.toml"), "pkgs/one/hel-package.toml");
}

#[test]
fn the_search_passes_over_a_manifest_of_another_name() {
    let mut registry = PackageRegistry::new();
    registry.add_search_path("p1".to_string());
    registry.add_search_path("p2".to_string());
    registry.add_search_path("p3".to_string());
    create_test_package(&mut registry, "p1/pkg", "other", &[]);
    create_test_package(&mut registry, "p2/pkg", "pkg", &[]);
    create_test_package(&mut registry, "p3/pkg", "pkg", &[]);
    registry.add_file("p3/pkg/schema/00_domain.hel", "type Late {\n x: String\n}\n");
    let package = registry.load_package("pkg").expect("load failed");
    assert_eq!(package.root_path, "p2/pkg");
    assert_eq!(package.manifest.name, "pkg");
    assert!(package.schema.get_type("pkgType").is_some());
    assert!(registry.get_package("pkg").is_some());
    assert!(registry.get_package("other").is_none());

    // Where no directory carries the name, the first other name is reported.
    let mut registry = PackageRegistry::new();
    registry.add_search_path("p0".to_string());
    registry.add_search_path("p1".to_string());
    registry.add_search_path("p2".to_string());
    create_test_package(&mut registry, "p1/pkg", "other", &[]);
    create_test_package(&mut registry, "p2/pkg", "another", &[]);
    match registry.load_package("pkg") {
        Err(PackageError::NameMismatch { expected, found }) => {
            assert_eq!(expected, "pkg");
            assert_eq!(found, "other");
        }
        other => panic!("unexpected {:?}", other),
    }
    assert_eq!(
        registry.load_package("pkg").unwrap_err().message(),
        "Package name mismatch: expected 'pkg', found 'other'"
    );
    // Where there is no manifest at all, the package is not found.
    assert!(matches!(
        registry.load_package("absent"),
        Err(PackageError::PackageNotFound { .. })
    ));

    // A manifest that cannot be read as one ends the search.
    let mut registry = PackageRegistry::new();
    registry.add_search_path("p1".to_string());
    registry.add_search_path("p2".to_string());
    registry.add_file("p1/pkg/hel-package.toml", "name = ");
    create_test_package(&mut registry, "p2/pkg", "pkg", &[]);
    assert!(matches!(registry.load_package("pkg"), Err(PackageError::ManifestParse(_))));
    assert!(registry.get_package("pkg").is_none());
}

#[test]
fn a_type_defined_twice_in_one_file_is_a_duplicate() {
    let mut store = FileStore::new();
    store.add_file(
        "pkgs/dup/hel-package.toml",
        "name = \"dup\"\nversion = \"1\"\nschemas = [\"a.hel\"]\n",
    );
    store.add_file(
        "pkgs/dup/a.hel",
        "type First {\n x: String\n}\ntype Same {\n x: String\n}\ntype Same {\n y: Number\n}\ntype First {\n z: Bool\n}\n",
    );
    match SchemaPackage::from_directory(&store, "pkgs/dup") {
        Err(PackageError::DuplicateType { package, type_ident }) => {
            assert_eq!(package, "dup");
            assert_eq!(type_ident, "Same");
        }
        other => panic!("unexpected {:?}", other),
    }
    assert_eq!(
        SchemaPackage::from_directory(&store, "pkgs/dup").unwrap_err().message(),
        "Duplicate type 'Same' in package 'dup'"
    );
    // The last block of a file counts too, closed or not.
    store.add_file("pkgs/dup/a.hel", "type Same {\n x: String\n}\ntype Same {\n y: Number\n");
    assert!(matches!(
        SchemaPackage::from_directory(&store, "pkgs/dup"),
        Err(PackageError::DuplicateType { .. })
    ));
    // By itself the text is a schema, which holds the later definition.
    let schema = hel::parse_schema("type Same {\n x: String\n}\ntype Same {\n y: Number\n}\n")
        .expect("schema");
    assert_eq!(schema.types.len(), 1);
    assert_eq!(schema.get_type("Same").unwrap().fields[0].name, "y");
    let (_, repeated) =
        hel::schema::read_schema("type Same {\n x: String\n}\ntype Same {\n y: Number\n}\n")
            .expect("schema");
    assert_eq!(repeated, Some("Same".to_string()));
    let (_, repeated) = hel::schema::read_schema("type One {\n x: String\n}\n").expect("schema");
    assert_eq!(repeated, None);
    // A file without a repeated type loads.
    store.add_file("pkgs/dup/a.hel", "type Same {\n x: String\n}\ntype Other {\n y: Same\n}\n");
    let package = SchemaPackage::from_directory(&store, "pkgs/dup").expect("load failed");
    assert_eq!(package.schema.types.len(), 2);
}
