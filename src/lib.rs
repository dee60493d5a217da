//! The front end of a small module-based functional language, centred on
//! name resolution: the binder turns parsed modules whose identifiers are
//! bare names and qualified paths into modules where every occurrence is
//! bound to a local binding or to a declared qualified path.
//!
//! - `path`: symbols, qualified paths and bindings.
//! - `syntax`: the declarations, expressions and statements being resolved.
//! - `rules`: what resolution computes, as spec functions over the syntax.
//! - `resolver`: the three passes of resolution and their errors.
//! - `laws`: properties of resolution proved from those rules.
//! - `interner`: the text of symbols, for messages.
//! - `common`, `lexer`, `parser`, `typechecker`: spans, the environment of
//!   names, and the tokenizer, parser and type checker of the expression
//!   language.
pub mod common;
pub mod interner;
pub mod laws;
pub mod lexer;
pub mod parser;
pub mod path;
pub mod resolver;
pub mod rules;
pub mod syntax;
pub mod typechecker;
