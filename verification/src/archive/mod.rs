//! Archiving: the files of a frame set go into one zip per kind of frame.

pub mod commit;
pub mod db;
pub mod executor;
pub mod layout_laws;
pub mod models;
pub mod naming_laws;
pub mod path_layout;
pub mod place_laws;
pub mod plan_error;
pub mod plan_laws;
pub mod planner;
pub mod record_laws;
pub mod restore_law;
pub mod run;
pub mod run_laws;
