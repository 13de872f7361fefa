//! Emits reverse-engineered module offsets as constant declarations for
//! several target syntaxes, with contracts that pin the emitted text.

pub mod emit;
pub mod encoder;
pub mod error;
pub mod hex;
pub mod ident;
pub mod interface;
pub mod json;
pub mod layout;
pub mod model;
pub mod order;
pub mod render;
pub mod shape;
pub mod text;
pub mod writer;

pub use crate::emit::Syntax;
pub use crate::error::EmitError;
pub use crate::interface::InterfaceReg;
pub use crate::model::{Module, Offset, OffsetMap};
pub use crate::render::Target;
pub use crate::writer::{Body, Lines, Writer};
