//! The commands of the library.

pub mod error;
pub mod prepare_laws;
pub mod sync;
pub mod sync_prepare;
