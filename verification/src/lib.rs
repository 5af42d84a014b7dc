//! The rules of a `hops://` origin endpoint.

pub mod bearer;
pub mod config;
pub mod driver;
pub mod head;
pub mod hops;
pub mod limits;
pub mod link;
pub mod peek;
pub mod proxy;
pub mod record;
pub mod source;
pub mod target;
pub mod text;
