//! Compiles a small textual notation for binary layouts into an exact byte stream.
//!
//! The heart of the library is [`compile`]: one left-to-right scan over the
//! characters of a unit that tokenizes, resolves type aliases and emits bytes.
//! Its behaviour is stated once, as the spec function `scanner::compile_spec`,
//! and the executable scanner is proved to follow it. A batch of units is
//! joined in input order by [`concat_units`].
use vstd::prelude::*;

pub mod aliases;
pub mod batch;
pub mod bytes;
pub mod cli;
pub mod number;
pub mod scanner;
pub mod text;
pub mod types;

pub use batch::concat_units;
pub use cli::{parse_args, Command, UsageError};
pub use scanner::{compile, float_literals, FloatLiteral};
pub use types::{AbsType, CompileError, Endian, ErrorKind};

verus! {

} // verus!
