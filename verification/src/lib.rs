//! Lazy expression construction: symbolic expressions over named columns,
//! built without evaluating anything and handed on as immutable trees.

pub mod binary64;
pub mod conditional;
pub mod expr;
pub mod literal;

pub use conditional::{When, WhenThen, WhenThenThen};
pub use expr::{Expr, Scalar};
pub use literal::{HostKind, HostProbe, HostValue, LiteralError};
