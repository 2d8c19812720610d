//! A small command-line option parser: a declared grammar of flags, options and
//! positionals, a tokenizer, a binder, a usage renderer and a facade over them.

pub mod bind;
pub mod laws;
pub mod parser;
pub mod render;
pub mod schema;
pub mod startup;
mod text;
pub mod token;
pub mod value;

pub use bind::{bind, ParseError, ParsedResult};
pub use parser::{parse, Outcome};
pub use render::render;
pub use schema::{Arity, Multiplicity, OptionSpec, PositionalSpec, Schema, SchemaError, ValueKind};
pub use startup::{init, ColorConfig, LogLevel, Settings};
pub use token::{scan, Token};
pub use value::Value;
