//! Archive planning, transfer bookkeeping and payload preparation for an
//! astrophotography library, with every rule stated as a contract.

pub mod api;
pub mod archive;
pub mod host_paths;
pub mod path_laws;
pub mod paths;
pub mod text;
pub mod text_laws;
pub mod text_map;
