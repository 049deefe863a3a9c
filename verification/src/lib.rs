//! HEL: a small, side-effect-free boolean rule language for host facts.
//!
//! Rules are written as text, parsed into a tree, and evaluated to a truth
//! value against the facts of a host, which a resolver supplies. Scripts
//! add `let` bindings; traces record every comparison that a rule makes;
//! schemas declare the types of the facts, and packages bundle schemas.

pub mod assoc;
pub mod ast;
pub mod builtins;
pub mod convert;
pub mod decimal;
pub mod error;
pub mod eval;
pub mod grammar;
pub mod laws;
pub mod number;
pub mod parser;
pub mod render;
pub mod schema;
pub mod script;
pub mod shortest;
pub mod text;
pub mod trace;
pub mod value;

pub use ast::{AstNode, Comparator, Expression};
pub use builtins::{Builtin, BuiltinFn, BuiltinsProvider, BuiltinsRegistry, CoreBuiltinsProvider};
pub use error::{ErrorKind, EvalError, HelError};
pub use eval::{
    evaluate_with_context, evaluate_with_resolver, evaluate_with_trace, EvalContext, HelResolver,
};
pub use parser::{parse_expression, parse_rule, validate_expression};
pub use schema::package::{PackageError, PackageManifest, TypeEnvironment};
pub use schema::registry::{FileStore, PackageRegistry, SchemaPackage};
pub use schema::{parse_schema, FieldDef, FieldType, Schema, TypeDef};
pub use script::{evaluate, evaluate_script, parse_script, FactsEvalContext, Script};
pub use trace::{AtomTrace, AtomTrace as TraceAtom, EvalTrace};
pub use value::Value;
