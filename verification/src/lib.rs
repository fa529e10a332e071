//! Decoder for a compact binary serialization of nested key/value metadata
//! catalogs.
//!
//! A catalog file starts with an 8-byte header (`version`, `universe`, both
//! little-endian `u32`) followed by a stream of fixed-layout records, each of
//! which carries a recursively nested, tag-discriminated key/value tree.
//! Two record kinds exist: application records ([`AppInfo`]) and package
//! records ([`PackageInfo`]); each stream ends at a reserved sentinel id.
//!
//! Every decoder is specified against a mathematical reading of the wire
//! format (see [`format`]) and proved to return exactly what that reading
//! prescribes: the same catalog on success, the same error otherwise.

pub mod catalog;
pub mod error;
pub mod format;
pub mod node;
pub mod reader;
pub mod text;
pub mod value;

pub use catalog::App;
pub use catalog::AppInfo;
pub use catalog::Package;
pub use catalog::PackageInfo;
pub use error::DecodeError;
pub use value::KeyValue;
pub use value::Value;
