//! Decoding of JSON text into a dynamic, tree-shaped value.
//!
//! The crate turns a textual JSON document into a [`value::DynValue`]: a closed
//! tagged union over null, booleans, 64-bit signed and unsigned integers,
//! floating-point numbers (carried as their IEEE-754 bits), strings, ordered
//! lists, and order-preserving string-keyed maps.
//!
//! Lexing and grammar validation are the job of an outside tokenizer
//! (`serde_json`), consumed through a narrow trusted interface in
//! [`decode`].  Everything after that point — numeric classification,
//! list assembly, map assembly with insertion order kept and last write
//! winning on a duplicate key — is verified against the model in
//! [`value`] and [`builder`].

pub mod builder;
pub mod decode;
pub mod object;
pub mod value;

pub use builder::build_value;
pub use builder::Raw;
pub use decode::deserialize;
pub use decode::DecodeError;
pub use value::DynValue;
pub use value::SpecValue;
