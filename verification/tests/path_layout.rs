use athenaeum_core::archive::models::FrameRole;
use athenaeum_core::archive::path_layout::{
    add_suffix, calibration_zip_dir, calibration_zip_filename, dest_under_root,
    original_parent_for_restore, path_in_zip, path_starts_with_fold, resolve_scan_root_prefixes,
    root_base_name, sanitize_for_filename, split_extension, windows_safe_component, zip_filename,
};
use athenaeum_core::host_paths::{
    host_file_name_of, host_join, host_parent_of, names_bare_server, Host,
};
use std::path::{Path, PathBuf};

#[test]
fn sanitize_strips_problematic_chars() {
    assert_eq!(sanitize_for_filename("Hello World"), "Hello_World");
    assert_eq!(sanitize_for_filename("foo/bar:baz"), "foo_bar_baz");
    assert_eq!(sanitize_for_filename("a   b"), "a_b");
}

#[test]
fn sanitize_trims_trailing_dots_and_guards_reserved_names() {
    assert_eq!(sanitize_for_filename("Sh2-155."), "Sh2-155");
    assert_eq!(sanitize_for_filename("NGC 7000 "), "NGC_7000");
    // Dot segments must not survive as path components.
    assert_eq!(sanitize_for_filename("."), "");
    assert_eq!(sanitize_for_filename(".."), "");
    // Device names, in any case, with or without an extension.
    assert_eq!(sanitize_for_filename("NUL"), "NUL_");
    assert_eq!(sanitize_for_filename("nul"), "nul_");
    assert_eq!(sanitize_for_filename("COM3"), "COM3_");
    assert_eq!(sanitize_for_filename("lpt9.fits"), "lpt9_.fits");
    assert_eq!(sanitize_for_filename("NUL.txt"), "NUL_.txt");
    assert_eq!(sanitize_for_filename("COM0"), "COM0_");
    assert_eq!(sanitize_for_filename("lpt0"), "lpt0_");
    assert_eq!(sanitize_for_filename("COM³"), "COM³_");
    // Not devices.
    assert_eq!(sanitize_for_filename("com10"), "com10");
    assert_eq!(sanitize_for_filename("M31"), "M31");
    assert_eq!(sanitize_for_filename("DMK 41AU02.AS"), "DMK_41AU02.AS");
}

#[test]
fn windows_safe_component_covers_current_reserved_list() {
    assert_eq!(windows_safe_component("COM0", "X"), "COM0_");
    assert_eq!(windows_safe_component("LPT0", "X"), "LPT0_");
    assert_eq!(windows_safe_component("LPT²", "X"), "LPT²_");
    assert_eq!(windows_safe_component("COM10", "X"), "COM10");
    assert_eq!(windows_safe_component("M31.", "X"), "M31");
    assert_eq!(windows_safe_component("..", "X"), "X");
    assert_eq!(windows_safe_component("", "X"), "X");
}

#[test]
fn zip_filename_fallbacks() {
    let f = zip_filename(None, None, None, None, None, FrameRole::Light);
    assert_eq!(f, "Unknown_Unknown_Unknown_Unknown_Unknown_Lights.zip");

    let f = zip_filename(
        Some("M 31"),
        Some("2025-10-12"),
        Some("2025-10-15"),
        Some("RedCat 51"),
        Some("ASI2600MM"),
        FrameRole::Flat,
    );
    assert_eq!(f, "M_31_2025-10-12_2025-10-15_RedCat_51_ASI2600MM_Flats.zip");
}

#[test]
fn resolve_scan_root_prefixes_unique_basenames() {
    let paths = vec!["/Photos/Lights".to_string(), "/Photos/Cal".to_string()];
    let map = resolve_scan_root_prefixes(&paths, Host::Linux);
    assert_eq!(map.get("/Photos/Lights").unwrap(), "Lights");
    assert_eq!(map.get("/Photos/Cal").unwrap(), "Cal");
}

#[test]
fn resolve_scan_root_prefixes_duplicate_basenames() {
    let paths = vec![
        "/Disk1/Astro".to_string(),
        "/Disk2/Astro".to_string(),
        "/Disk3/Astro".to_string(),
    ];
    let map = resolve_scan_root_prefixes(&paths, Host::Linux);
    let mut values: Vec<String> = map.entries().iter().map(|e| e.value.clone()).collect();
    values.sort();
    assert_eq!(values, vec!["Astro", "Astro_2", "Astro_3"]);
}

#[test]
fn scan_roots_get_different_names_whatever_their_order() {
    let names = |paths: [&str; 3]| {
        let paths: Vec<String> = paths.iter().map(|p| p.to_string()).collect();
        let map = resolve_scan_root_prefixes(&paths, Host::Linux);
        paths.iter().map(|p| map.get(p).unwrap().clone()).collect::<Vec<String>>()
    };
    assert_eq!(names(["/a/Astro", "/b/Astro", "/c/Astro_2"]), ["Astro", "Astro_2", "Astro_2_2"]);
    assert_eq!(names(["/c/Astro_2", "/a/Astro", "/b/Astro"]), ["Astro_2", "Astro", "Astro_3"]);
    assert_eq!(names(["/a/Astro", "/c/Astro_2", "/b/Astro"]), ["Astro", "Astro_2", "Astro_3"]);
}

#[test]
fn path_in_zip_relative() {
    let zip_path = path_in_zip(
        "Lights",
        "/Photos/Lights",
        "/Photos/Lights/M31/2025-10-12/L_001.fits",
        Host::Linux,
    );
    assert_eq!(zip_path, "Lights/M31/2025-10-12/L_001.fits");
}

#[test]
fn path_in_zip_outside_scan_root_falls_back_to_basename() {
    let zip_path = path_in_zip("Lights", "/Photos/Lights", "/Other/foo.fits", Host::Linux);
    assert_eq!(zip_path, "Lights/foo.fits");
}

#[test]
fn path_in_zip_strips_case_variant_root() {
    let z = path_in_zip("Astro", "/data/Astro", "/data/astro/M31/L/x.fits", Host::MacOs);
    assert_eq!(z, "Astro/M31/L/x.fits");
    // A host that tells the cases apart does not match the root.
    let z = path_in_zip("Astro", "/data/Astro", "/data/astro/M31/L/x.fits", Host::Linux);
    assert_eq!(z, "Astro/x.fits");
}

#[test]
fn path_in_zip_non_descendant_still_falls_back_to_basename() {
    let z = path_in_zip("Root", "/data/Astro", "/elsewhere/x.fits", Host::Linux);
    assert_eq!(z, "Root/x.fits");
    let z = path_in_zip("Root", "/data/Astro", "/elsewhere/x.fits", Host::MacOs);
    assert_eq!(z, "Root/x.fits");
}

#[test]
fn calibration_zip_dir_uses_camera_and_date() {
    let dir = calibration_zip_dir(Some("ASI2600MM"), "2026-06-28T20:00:00Z", Host::Linux);
    assert_eq!(PathBuf::from(dir), PathBuf::from("Calibration_Archive/ASI2600MM/2026-06-28"));
}

#[test]
fn calibration_zip_dir_falls_back_when_missing() {
    let dir = calibration_zip_dir(None, "", Host::Linux);
    assert_eq!(
        PathBuf::from(dir),
        PathBuf::from("Calibration_Archive/UnknownCamera/unknown-date")
    );
}

#[test]
fn calibration_zip_filename_includes_all_tokens() {
    let f = calibration_zip_filename(
        Some("ASI2600MM"),
        "Dark",
        Some(100),
        Some("300"),
        "2026-06-28T20:00:00Z",
        "2026-06-28T21:00:00Z",
    );
    assert_eq!(f, "ASI2600MM_Dark_g100_300s_2026-06-28_2026-06-28.zip");
}

#[test]
fn calibration_zip_filename_sanitizes_date_tokens() {
    let ok = calibration_zip_filename(
        Some("ASI2600MM"),
        "Dark",
        None,
        None,
        "2025-10-12T20:00:00Z",
        "2025-10-12T21:00:00Z",
    );
    assert_eq!(ok, "ASI2600MM_Dark_2025-10-12_2025-10-12.zip");

    // A date comes out of a file: what stands there must not climb.
    let evil = calibration_zip_filename(
        Some("ASI2600MM"),
        "Dark",
        None,
        None,
        "../../../etc",
        "2025-10-12T21:00:00Z",
    );
    assert!(!evil.contains('/'), "no '/': {evil}");
    assert!(!evil.contains('\\'), "no '\\': {evil}");
    let joined = Path::new("/archive/root").join(&evil);
    assert_eq!(joined.parent(), Some(Path::new("/archive/root")));
    assert!(
        !Path::new(&evil).components().any(|c| c.as_os_str() == ".."),
        "no '..' component: {evil}"
    );
}

#[test]
fn calibration_zip_filename_collapses_missing_gain_and_exptime() {
    let f = calibration_zip_filename(
        None,
        "Bias",
        None,
        None,
        "2026-06-28T20:00:00Z",
        "2026-06-28T21:00:00Z",
    );
    assert_eq!(f, "UnknownCamera_Bias_2026-06-28_2026-06-28.zip");
}

#[test]
fn original_parent_component_based_both_separator_styles() {
    assert_eq!(
        original_parent_for_restore("/data/Astro/M31/x.fits", "Astro/M31/x.fits"),
        Some("/data".to_string())
    );
    assert_eq!(
        original_parent_for_restore(r"C:\data\Astro\M31\x.fits", "Astro/M31/x.fits"),
        Some(r"C:\data".to_string())
    );
    // Nothing is left.
    assert_eq!(
        original_parent_for_restore("/Astro/M31/x.fits", "Astro/M31/x.fits"),
        None
    );
    // A bare drive is no directory.
    assert_eq!(original_parent_for_restore(r"C:\stray\x.fits", "Root/x.fits"), None);
}

#[test]
fn starts_with_fold_is_component_wise() {
    assert!(path_starts_with_fold("/photos/astro/x.fits", "/photos/astro", Host::Linux));
    assert!(!path_starts_with_fold("/photos/astro2/x.fits", "/photos/astro", Host::Linux));
    assert!(path_starts_with_fold("/photos/astro/x.fits", "/photos/astro", Host::MacOs));
    assert!(!path_starts_with_fold("/photos/astro2/x.fits", "/photos/astro", Host::MacOs));
}

#[test]
fn starts_with_fold_case_folds_on_case_insensitive_hosts() {
    assert!(path_starts_with_fold("/data/astro/x.fits", "/data/Astro", Host::MacOs));
    assert!(!path_starts_with_fold("/data/astro/x.fits", "/data/Astro", Host::Linux));
}

#[test]
fn dest_under_root_joins_component_wise() {
    let d = PathBuf::from(dest_under_root("/r", "Lights/M31/x.fits", Host::Linux));
    let comps: Vec<String> = d
        .components()
        .map(|c| c.as_os_str().to_string_lossy().to_string())
        .collect();
    assert!(comps.ends_with(&["r".into(), "Lights".into(), "M31".into(), "x.fits".into()]));
}

#[test]
fn add_suffix_works() {
    let p = "/tmp/M31_Lights.zip";
    assert_eq!(add_suffix(p, 2, Host::Linux), "/tmp/M31_Lights (2).zip");
    assert_eq!(add_suffix(p, 3, Host::Linux), "/tmp/M31_Lights (3).zip");
}

#[test]
fn a_name_without_an_extension_becomes_a_zip() {
    assert_eq!(add_suffix("/tmp/archive", 2, Host::Linux), "/tmp/archive (2).zip");
    assert_eq!(add_suffix("archive.zip", 4, Host::Linux), "archive (4).zip");
}

#[test]
fn extension_is_what_follows_the_last_dot() {
    assert_eq!(split_extension("a.tar.gz"), ("a.tar".to_string(), Some("gz".to_string())));
    assert_eq!(split_extension(".hidden"), (".hidden".to_string(), None));
    assert_eq!(split_extension("plain"), ("plain".to_string(), None));
}

#[test]
fn base_name_of_a_root() {
    assert_eq!(root_base_name("/Disk1/My Astro", Host::Linux), "My_Astro");
    assert_eq!(root_base_name("/", Host::Linux), "Root");
}

/// The folding of a matched root goes by the whole of Unicode, not by ASCII.
#[test]
fn folded_match_lowers_every_letter() {
    assert!(path_starts_with_fold("/data/ÄSTRO/x.fits", "/data/ästro", Host::MacOs));
    assert!(!path_starts_with_fold("/data/ÄSTRO/x.fits", "/data/ästro", Host::Linux));
}

#[test]
fn a_zip_name_is_one_component_whatever_the_metadata_holds() {
    let f = zip_filename(
        Some("../x"),
        Some("a/b"),
        Some("c\\d"),
        Some(".."),
        Some("/"),
        FrameRole::Dark,
    );
    assert!(!f.contains('/') && !f.contains('\\'), "{f}");
    assert_eq!(Path::new("/root").join(&f).parent(), Some(Path::new("/root")));
}

#[test]
fn windows_paths_match_up_to_case_and_separators() {
    let w = Host::Windows;
    assert!(path_starts_with_fold(r"C:\astro\M31\x.fits", r"C:\Astro", w));
    assert!(path_starts_with_fold(r"c:/Astro/x.fits", r"C:\Astro\", w));
    assert!(!path_starts_with_fold(r"C:\astro2\x.fits", r"C:\Astro", w));
    assert!(!path_starts_with_fold(r"D:\Astro\x.fits", r"C:\Astro", w));
    assert!(!path_starts_with_fold(r"C:Astro\x.fits", r"C:\Astro", w), "relative to a drive");
    assert!(path_starts_with_fold(r"\\NAS\astro\x.fits", r"\\nas\Astro", w));
    assert!(!path_starts_with_fold(r"C:\astro\x.fits", r"C:\astro", Host::Linux), "one name");

    assert_eq!(path_in_zip("Astro", r"C:\Astro", r"C:\astro\M31\L\x.fits", w), "Astro/M31/L/x.fits");
    assert_eq!(path_in_zip("Root", r"C:\Astro", r"D:\else\x.fits", w), "Root/x.fits");
    assert_eq!(path_in_zip("Nas", r"\\nas\sky", r"\\nas\sky\a\x.fits", w), "Nas/a/x.fits");
}

#[test]
fn restored_paths_have_native_separators() {
    let w = Host::Windows;
    assert_eq!(dest_under_root(r"C:\root", "Lights/M31/x.fits", w), r"C:\root\Lights\M31\x.fits");
    assert_eq!(dest_under_root(r"C:\", "Lights/x.fits", w), r"C:\Lights\x.fits");
    assert_eq!(dest_under_root("/root", "Lights/x.fits", Host::MacOs), "/root/Lights/x.fits");
    let source = r"C:\data\Astro\M31\x.fits";
    let zipped = path_in_zip("Astro", r"C:\data\Astro", source, w);
    let parent = original_parent_for_restore(source, &zipped).unwrap();
    assert_eq!(dest_under_root(&parent, &zipped, w), source, "the file goes back");
}

#[test]
fn scan_roots_on_windows_are_named_after_their_directory() {
    let paths: Vec<String> =
        [r"D:\Photos\My Astro", r"E:\My Astro\", r"F:\", r"\\nas\sky", r"\\nas\sky\Astro"]
            .iter()
            .map(|p| p.to_string())
            .collect();
    let map = resolve_scan_root_prefixes(&paths, Host::Windows);
    let names: Vec<&str> = paths.iter().map(|p| map.get(p).unwrap().as_str()).collect();
    assert_eq!(names, ["My_Astro", "My_Astro_2", "Root", "Root_2", "Astro"]);
}

#[test]
fn paths_are_put_together_as_the_host_does() {
    let w = Host::Windows;
    assert_eq!(host_join(r"C:\a", "b", w), r"C:\a\b");
    assert_eq!(host_join(r"C:\a\", "b", w), r"C:\a\b");
    assert_eq!(host_join("C:/a/", "b", w), "C:/a/b");
    assert_eq!(host_join("C:", "b", w), "C:b");
    assert_eq!(host_join(r"C:\a", r"\b", w), r"C:\b");
    assert_eq!(host_join(r"C:\a", r"D:\b", w), r"D:\b");
    assert_eq!(host_join("", "b", w), "b");
    assert_eq!(host_join("/a", "/b", Host::Linux), "/b");
    assert_eq!(host_join("/a", r"\b", Host::Linux), r"/a/\b");

    assert_eq!(host_file_name_of(r"C:\a\b.zip", w).as_deref(), Some("b.zip"));
    assert_eq!(host_file_name_of(r"C:\", w), None);
    assert_eq!(host_file_name_of(r"\\nas\sky", w), None);
    assert_eq!(host_file_name_of(r"C:\a\b.zip", Host::Linux).as_deref(), Some(r"C:\a\b.zip"));
    assert_eq!(host_parent_of(r"C:\a/b.zip", w).as_deref(), Some(r"C:\a"));
    assert_eq!(host_parent_of(r"C:\a", w).as_deref(), Some(r"C:\"));
    assert_eq!(host_parent_of("C:a", w).as_deref(), Some("C:"));
    assert_eq!(host_parent_of(r"C:\", w), None);
    assert_eq!(host_parent_of(r"\\nas\sky\a", w).as_deref(), Some(r"\\nas\sky\"));

    assert_eq!(add_suffix(r"C:\tmp\M31.zip", 2, w), r"C:\tmp\M31 (2).zip");
    let dir = calibration_zip_dir(Some("Cam"), "2026-06-28T20:00:00Z", w);
    assert_eq!(dir, r"Calibration_Archive\Cam\2026-06-28");

    assert!(names_bare_server(r"\\nas", w) && names_bare_server(r"\\nas\", w));
    assert!(!names_bare_server(r"\\nas\sky", w) && !names_bare_server(r"C:\nas", w));
    assert!(!names_bare_server("//nas", Host::Linux));
}
