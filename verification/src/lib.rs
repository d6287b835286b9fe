//! The core of a compiler frontend: macro expansion, instantiation of generic
//! items, resolution of indexing, lowering of built-in operations and the
//! evaluation of type layouts, each with a contract that is proved of it.

pub mod bits;
pub mod error;
pub mod generics;
pub mod index;
pub mod infer;
pub mod intrinsics;
pub mod layout;
pub mod macros;
pub mod memory;
pub mod pipeline;
pub mod ptr;
pub mod resolve;
pub mod tagged;
pub mod types;
pub mod value;
