//! Local Deploy: address handling, archive path safety, upload and
//! allocation decisions of the management API, and the response and error
//! handling of the management client, with their contracts.

pub mod address;
pub mod archive;
pub mod client;
pub mod ids;
pub mod packing;
pub mod paths;
pub mod server;
pub mod text;
pub mod tools;
