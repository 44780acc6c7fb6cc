//! Expands tagged-union pseudo-type declarations found in TypeScript sources
//! into constructors, type guards and exhaustive dispatch helpers, and keeps
//! the emitted region of a file up to date.

pub mod args;
pub mod codegen;
pub mod fingerprint;
pub mod matcher;
pub mod parser;
pub mod string_utils;
pub mod text;
pub mod write;

pub use args::{Mode, PipeMode, WriteOptions};
pub use codegen::{braced_generic, generate, Source};
pub use fingerprint::{fingerprint, ENUM_STRUCTURE_VERSION};
pub use parser::{parse, ParseError, Parsed, TSEnum};
pub use string_utils::{Position, StringPositions};
pub use write::{is_typescript_file, make_edit, make_edit_offsets, rewrite};
