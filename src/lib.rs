//! A small line-oriented scripting language.
//!
//! - `value`: runtime values and their text forms.
//! - `text`, `scan`, `literal`, `syntax`, `parser`: from source text to
//!   statements, each step with its model (`atom_of`, `expr_of`, `cond_of`,
//!   `simple_of`, `block_of`, `program_of`).
//! - `table`, `eval`: the session environment and the execution of
//!   statements; native functions and module files come from a `Host`.
//! - `package`: which modules are loaded, and where module files are found.
//! - `natives`: the pure parts of the native function groups.
//! - `codec`: the obfuscated container format.
use vstd::prelude::*;

pub mod codec;
pub mod error;
pub mod eval;
pub mod literal;
pub mod natives;
pub mod package;
pub mod parser;
pub mod scan;
pub mod syntax;
pub mod table;
pub mod text;
pub mod value;

verus! {

} // verus!
