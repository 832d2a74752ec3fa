//! Canonical type-codec layer for an RLP-style binary wire format.
//!
//! Values are carried on the wire as one of two node kinds: an atomic byte
//! payload (a value node) or an ordered sequence of child nodes (a list
//! node).  This crate maps in-memory scalar and composite values to and from
//! that representation, enforcing a single canonical encoding per value:
//! unsigned magnitudes are minimal-length big-endian with no leading zero
//! byte, signed values go through a zigzag transform, optional values are
//! lists of arity zero or one, and fixed-size buffers must match their
//! declared length exactly.  Every decode operation reports malformed input
//! through the closed error set in [`error`].

pub mod arrays;
pub mod bytes;
pub mod codec;
pub mod composite;
pub mod error;
pub mod node;
pub mod scalars;
pub mod signed;
pub mod text;
pub mod uint;

pub use codec::{Decodable, Encodable};
pub use error::DecoderError;
pub use node::{Node, NodeView};
pub use uint::decode_usize;
