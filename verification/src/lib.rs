//! A text transformation engine.
//!
//! A [`Data`] is a text, an ordered list of values that may nest to any
//! depth, or an error with its message. A [`Transformer`] is one of a closed
//! set of operations. Applied to a text it follows its own rule; applied to
//! a list it is applied to each element, except that joining gathers the
//! texts of the whole list into one; applied to an error it gives the input
//! error. No operation fails in any other way than by handing back an
//! error value.
//!
//! Contracts speak of [`Value`] and [`Operation`], the mathematical
//! counterparts of the two types: `Transformer::transform` returns what
//! `Operation::apply` says.

pub mod casing;
pub mod codec;
pub mod laws;
pub mod node;
pub mod pattern;
pub mod text;
pub mod transform;
pub mod value;

pub use crate::codec::Encoding;
pub use crate::node::Node;
pub use crate::node::NodeViewer;
pub use crate::transform::Operation;
pub use crate::transform::Transformer;
pub use crate::value::Data;
pub use crate::value::Value;
