//! Network benchmarking scenarios, their operations, and the drivers that
//! run them over a connection.

use vstd::prelude::*;

pub mod byte_buf;
pub mod connection;
pub mod endian;
pub mod error;
pub mod ext;
pub mod h09;
pub mod op;
pub mod path;
pub mod scenario;
pub mod time;
pub mod try_buf;
pub mod vm;

pub use error::Error;

verus! {

/// The result type of the library's fallible operations.
pub type Result<T, E = Error> = core::result::Result<T, E>;

} // verus!
