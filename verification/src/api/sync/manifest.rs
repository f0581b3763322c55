//! The manifest of a package.

use vstd::prelude::*;

verus! {

/// What a file of a package is.
#[derive(Debug, Clone, Copy, PartialEq, Eq, Structural)]
pub enum PayloadKind {
    /// A frame as it came from the camera.
    RawFrame,
    /// A master that several sets share.
    Master,
    /// A calibrated light, which is not in the catalog.
    CalibratedLight,
}

/// A file of a package.
#[derive(Debug, Clone)]
pub struct ManifestRecord {
    /// The version of the manifest.
    pub v: u32,
    pub frame_uuid: String,
    pub origin_catalog_uuid: String,
    pub origin_device: String,
    pub payload_kind: PayloadKind,
    pub rel_path: String,
    pub byte_size: u64,
    pub xxh3: String,
    /// What the catalog knows of the frame, in JSON.
    pub frame_meta: String,
    /// The analysis of the frame, in JSON.
    pub analysis: Option<String>,
    pub app_version: String,
    pub project: Option<String>,
}

} // verus!
