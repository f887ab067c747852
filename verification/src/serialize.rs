//! The archive codec: header and entry records, and the writer and reader
//! that frame them into a stream.

pub mod buffer;
pub mod deserializer;
pub mod header;
pub mod laws;
pub mod meta;
pub mod option;
pub mod serializer;
pub mod version;
