//! Building blocks for compilers and interpreters: identifiers, nested scopes
//! with symbol tables and memory, and small parsing rules.

pub mod identifier;
pub mod inference;
pub mod log;
pub mod node;
pub mod operator;
pub mod rules;
pub mod scope;
pub mod symbol;
pub mod ty;
pub mod value;

pub use identifier::Identifier;
pub use node::Node;
pub use symbol::Symbol;
pub use ty::{FindType, Type, Typed};
pub use value::Value;
