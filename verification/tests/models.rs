use athenaeum_core::archive::models::{
    ArchiveCompression, ArchiveDisposition, ArchiveStatus, FrameRole, RestoreConflict,
    RestoreOutcome,
};

#[test]
fn disposition_roundtrip() {
    for d in [ArchiveDisposition::Move, ArchiveDisposition::Copy, ArchiveDisposition::Skip] {
        assert_eq!(ArchiveDisposition::from_str(d.as_str()), Some(d));
    }
}

#[test]
fn compression_roundtrip() {
    for c in [ArchiveCompression::Store, ArchiveCompression::Deflate] {
        assert_eq!(ArchiveCompression::from_str(c.as_str()), Some(c));
    }
}

#[test]
fn unknown_words_are_no_disposition_and_no_compression() {
    assert_eq!(ArchiveDisposition::from_str("Move"), None);
    assert_eq!(ArchiveCompression::from_str(""), None);
}

#[test]
fn status_unfinished() {
    assert!(ArchiveStatus::Copying.is_unfinished());
    assert!(ArchiveStatus::Finalizing.is_unfinished());
    assert!(!ArchiveStatus::Completed.is_unfinished());
    assert!(!ArchiveStatus::Cancelled.is_unfinished());
    assert!(!ArchiveStatus::RolledBack.is_unfinished());
    assert!(!ArchiveStatus::Failed.is_unfinished());
}

#[test]
fn restore_outcome_has_conflicts() {
    let clean = RestoreOutcome::default();
    assert!(!clean.has_conflicts());

    let dirty = RestoreOutcome {
        conflicts: vec![RestoreConflict {
            file_id: Some(1),
            source_path: "/a.fits".into(),
            expected_hash: "aaaa".into(),
            actual_hash: Some("bbbb".into()),
        }],
    };
    assert!(dirty.has_conflicts());
}

#[test]
fn frame_role_priority_order() {
    // A light wins over everything; a bias loses to everything.
    assert!(FrameRole::Light.priority() < FrameRole::Flat.priority());
    assert!(FrameRole::Flat.priority() < FrameRole::Darkflat.priority());
    assert!(FrameRole::Darkflat.priority() < FrameRole::Dark.priority());
    assert!(FrameRole::Dark.priority() < FrameRole::Bias.priority());
}
