//! A verified intermediate-representation builder with an interpreting
//! backend.
//!
//! A [`context::Context`] owns a set of functions. Each function is built
//! instruction by instruction through a [`builder::UncompiledFunction`]
//! over the value shapes of [`types`], lowered and laid out by
//! `Context::compile`, and then run by the context's little-endian byte
//! machine, which can suspend into the host to service native calls and
//! hand buffer arguments back when the run is over.

pub mod blocks;
pub mod builder;
pub mod context;
pub mod ir;
pub mod laws;
pub mod machine;
pub mod mem;
pub mod ops;
pub mod types;

pub use builder::BuildError;
pub use builder::UncompiledFunction;
pub use context::Context;
pub use context::HostArg;
pub use ir::BinOp;
pub use ir::CallFlags;
pub use ir::UnOp;
pub use machine::CompileError;
pub use machine::Machine;
pub use machine::RunError;
pub use types::Abi;
pub use types::Field;
pub use types::Type;
pub use types::TypeError;
pub use types::TypeKind;
pub use types::get;
pub use types::type_eq;
