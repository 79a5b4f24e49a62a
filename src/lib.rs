//! A content-addressable store of loose objects: canonical header framing,
//! header parsing with size validation, and hash-derived addressing.

pub mod header;
pub mod object;
pub mod codec;
pub mod address;
pub mod store;
