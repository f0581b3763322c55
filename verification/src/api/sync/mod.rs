//! Device-to-device transfers: who may send, what is sent, and what is told of
//! it.
//!
//! Paths are separated at slashes here on every host: where the host has other
//! separators too, the caller makes them slashes before a call.

pub mod account_laws;
pub mod deletion;
pub mod device_laws;
pub mod file_laws;
pub mod layout;
pub mod manifest;
pub mod node_id;
pub mod package_laws;
pub mod peers;
pub mod placing_laws;
pub mod resurrection;
pub mod rows;
pub mod selection;
pub mod selection_laws;
pub mod settings;
pub mod settings_laws;
pub mod settings_text;
pub mod startup;
pub mod status;
pub mod status_laws;
pub mod storage;
pub mod storage_laws;
pub mod summaries;
pub mod transfer_files;
pub mod transfer_laws;
pub mod transfers;
