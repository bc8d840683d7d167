use gdps_patcher::acquisition::{
    acquisition_failure, acquisition_steps, classify_entry, cleanup_after, has_nested_file,
    has_top_level,
    locate_installation, locate_unpacked, names_executable, AcquireStep, ArchiveEntry,
    DOWNLOAD_TIMEOUT_SECONDS, MARK_ARGUMENT, MARK_PROGRAM, NO_EXECUTABLE,
};
use gdps_patcher::error::{PatchError, Warning};
use gdps_patcher::layout::{
    archive_location, archive_url, cache_dir, cached_bundle_binary, launch_target, server_dir,
    servers_dir, staged_binary, staging_target, Entry, Location, PlatformLayout, Root,
};
use gdps_patcher::profiles::{profile_ids, Child};
use gdps_patcher::staging::{
    copy_action, copy_plan, staging_steps, CopyAction, CopyKind, StagingStep,
};

fn strings(names: &[&str]) -> Vec<String> {
    names.iter().map(|name| name.to_string()).collect()
}

fn file(names: &[&str]) -> Entry {
    Entry { path: strings(names), is_dir: false }
}

fn dir(names: &[&str]) -> Entry {
    Entry { path: strings(names), is_dir: true }
}

fn cache(names: &[&str]) -> Location {
    Location { root: Root::Cache, components: strings(names) }
}

fn data(names: &[&str]) -> Location {
    Location { root: Root::Data, components: strings(names) }
}

#[test]
fn locations_below_the_cache_root() {
    assert_eq!(cache_dir(), cache(&["GeometryDash"]));
    assert_eq!(archive_location(), cache(&["GeometryDash", "temp_gd.zip"]));
    assert_eq!(
        cached_bundle_binary(),
        cache(&["GeometryDash", "GeometryDash.app", "Contents", "MacOS", "Geometry Dash"])
    );
}

#[test]
fn locations_below_the_data_root() {
    assert_eq!(servers_dir(), data(&["servers"]));
    assert_eq!(server_dir("abc"), data(&["servers", "abc"]));
    assert_eq!(
        staging_target(PlatformLayout::Bundle, "abc"),
        data(&["servers", "abc", "GeometryDash.app"])
    );
    assert_eq!(staging_target(PlatformLayout::FlatBinary, "abc"), data(&["servers", "abc"]));
    assert_eq!(
        staged_binary(PlatformLayout::Bundle, "abc"),
        data(&["servers", "abc", "GeometryDash.app", "Contents", "MacOS", "Geometry Dash"])
    );
    assert_eq!(
        staged_binary(PlatformLayout::FlatBinary, "abc"),
        data(&["servers", "abc", "GeometryDash.exe"])
    );
    assert_eq!(
        launch_target(PlatformLayout::Bundle, "abc"),
        data(&["servers", "abc", "GeometryDash.app"])
    );
    assert_eq!(
        launch_target(PlatformLayout::FlatBinary, "abc"),
        data(&["servers", "abc", "GeometryDash.exe"])
    );
}

#[test]
fn server_id_is_one_name_whatever_it_holds() {
    assert_eq!(server_dir("a/b"), data(&["servers", "a/b"]));
    assert_eq!(server_dir(""), data(&["servers", ""]));
}

#[test]
fn archive_of_each_layout() {
    assert_eq!(archive_url(PlatformLayout::Bundle), "https://cdn.rigby.host/GeometryDash.app.zip");
    assert_eq!(archive_url(PlatformLayout::FlatBinary), "https://cdn.rigby.host/GeometryDash.zip");
}

#[test]
fn bundle_is_found_under_its_name() {
    let listing = vec![
        dir(&["GeometryDash.app"]),
        dir(&["GeometryDash.app", "Contents"]),
        file(&["GeometryDash.app", "Contents", "Info.plist"]),
    ];
    assert_eq!(
        locate_installation(PlatformLayout::Bundle, &listing),
        Some(cache(&["GeometryDash", "GeometryDash.app"]))
    );
}

#[test]
fn bundle_is_not_found_in_an_empty_or_foreign_cache() {
    assert_eq!(locate_installation(PlatformLayout::Bundle, &vec![]), None);
    let listing = vec![file(&["temp_gd.zip"]), dir(&["nested"]), dir(&["nested", "GeometryDash.app"])];
    assert_eq!(locate_installation(PlatformLayout::Bundle, &listing), None);
    let listing = vec![dir(&["geometrydash.app"])];
    assert_eq!(locate_installation(PlatformLayout::Bundle, &listing), None);
}

#[test]
fn flat_executable_directly_in_the_cache_directory() {
    let listing = vec![
        dir(&["GeometryDash"]),
        file(&["GeometryDash", "GeometryDash.exe"]),
        file(&["GeometryDash.exe"]),
    ];
    assert_eq!(
        locate_installation(PlatformLayout::FlatBinary, &listing),
        Some(cache(&["GeometryDash"]))
    );
}

#[test]
fn flat_executable_in_the_directory_of_the_installations_name() {
    let listing = vec![
        file(&["sub", "geometrydash.exe"]),
        dir(&["GeometryDash"]),
        file(&["GeometryDash", "libcocos2d.dll"]),
        file(&["GeometryDash", "GeometryDash.exe"]),
    ];
    assert_eq!(
        locate_installation(PlatformLayout::FlatBinary, &listing),
        Some(cache(&["GeometryDash", "GeometryDash"]))
    );
}

#[test]
fn flat_directory_without_executable_is_no_installation() {
    let listing = vec![dir(&["GeometryDash"]), file(&["GeometryDash", "libcocos2d.dll"])];
    assert_eq!(locate_installation(PlatformLayout::FlatBinary, &listing), None);
    assert_eq!(locate_installation(PlatformLayout::FlatBinary, &vec![dir(&["GeometryDash"])]), None);
}

#[test]
fn flat_directory_without_executable_does_not_hide_one_elsewhere() {
    let listing = vec![
        file(&["sub", "geometrydash.exe"]),
        dir(&["GeometryDash"]),
        file(&["GeometryDash", "libcocos2d.dll"]),
    ];
    assert_eq!(
        locate_installation(PlatformLayout::FlatBinary, &listing),
        Some(cache(&["GeometryDash", "sub"]))
    );
}

#[test]
fn flat_nested_check_wants_a_file_of_that_name() {
    let listing = vec![dir(&["GeometryDash"]), dir(&["GeometryDash", "GeometryDash.exe"])];
    assert_eq!(locate_installation(PlatformLayout::FlatBinary, &listing), None);
    let listing = vec![
        file(&["zzz", "GeometryDash.exe"]),
        file(&["GeometryDash", "geometrydash.exe"]),
    ];
    assert_eq!(
        locate_installation(PlatformLayout::FlatBinary, &listing),
        Some(cache(&["GeometryDash", "zzz"]))
    );
}

#[test]
fn flat_directory_check_wants_a_directory_and_file_check_a_file() {
    let listing = vec![file(&["GeometryDash"]), dir(&["GeometryDash.exe"])];
    assert_eq!(locate_installation(PlatformLayout::FlatBinary, &listing), None);
}

#[test]
fn flat_executable_is_found_by_a_scan_whatever_its_case() {
    let listing = vec![
        dir(&["Geometry Dash v2"]),
        dir(&["Geometry Dash v2", "bin"]),
        file(&["Geometry Dash v2", "readme.txt"]),
        file(&["Geometry Dash v2", "bin", "GEOMETRYDASH.EXE"]),
        file(&["other", "GeometryDash.exe"]),
    ];
    assert_eq!(
        locate_installation(PlatformLayout::FlatBinary, &listing),
        Some(cache(&["GeometryDash", "Geometry Dash v2", "bin"]))
    );
}

#[test]
fn flat_scan_finds_a_differently_cased_executable_at_the_top() {
    let listing = vec![file(&["geometrydash.exe"])];
    assert_eq!(
        locate_installation(PlatformLayout::FlatBinary, &listing),
        Some(cache(&["GeometryDash"]))
    );
}

#[test]
fn flat_installation_is_not_found_without_an_executable() {
    assert_eq!(locate_installation(PlatformLayout::FlatBinary, &vec![]), None);
    let listing = vec![
        file(&["temp_gd.zip"]),
        dir(&["stuff"]),
        dir(&["stuff", "GeometryDash.exe"]),
        file(&["stuff", "GeometryDash.exe.bak"]),
    ];
    assert_eq!(locate_installation(PlatformLayout::FlatBinary, &listing), None);
}

#[test]
fn listing_checks() {
    let listing = vec![file(&["a"]), dir(&["b"]), file(&["b", "c"])];
    assert!(has_top_level(&listing, "a", None));
    assert!(has_top_level(&listing, "a", Some(false)));
    assert!(!has_top_level(&listing, "a", Some(true)));
    assert!(has_top_level(&listing, "b", Some(true)));
    assert!(!has_top_level(&listing, "b", Some(false)));
    assert!(!has_top_level(&listing, "c", None));
    assert!(has_nested_file(&listing, "b", "c"));
    assert!(!has_nested_file(&listing, "b", "a"));
    assert!(!has_nested_file(&listing, "a", "c"));
    assert!(!has_nested_file(&vec![dir(&["b", "c"])], "b", "c"));
    assert!(!has_nested_file(&vec![file(&["b", "c", "d"])], "b", "c"));
    assert!(names_executable(&file(&["x", "geometryDASH.exe"])));
    assert!(!names_executable(&dir(&["x", "GeometryDash.exe"])));
    assert!(!names_executable(&file(&[])));
    assert!(!names_executable(&file(&["GeometryDash.exe", "x"])));
}

#[test]
fn unpacked_bundle_is_where_its_archive_puts_it() {
    assert_eq!(
        locate_unpacked(PlatformLayout::Bundle, &vec![]),
        Ok(cache(&["GeometryDash", "GeometryDash.app"]))
    );
}

#[test]
fn unpacked_flat_archive_with_only_a_directory_is_an_acquisition_failure() {
    let listing = vec![dir(&["GeometryDash"]), file(&["GeometryDash", "libcocos2d.dll"])];
    assert_eq!(
        locate_unpacked(PlatformLayout::FlatBinary, &listing),
        Err(PatchError::Acquisition { detail: NO_EXECUTABLE.to_string() })
    );
    assert_eq!(
        locate_unpacked(PlatformLayout::FlatBinary, &vec![dir(&["GeometryDash"])]),
        Err(PatchError::Acquisition { detail: NO_EXECUTABLE.to_string() })
    );
    assert_eq!(
        locate_unpacked(PlatformLayout::FlatBinary, &vec![]),
        Err(PatchError::Acquisition { detail: NO_EXECUTABLE.to_string() })
    );
}

#[test]
fn unpacked_flat_archive_is_the_directory_of_its_executable() {
    let listing = vec![
        dir(&["GeometryDash"]),
        file(&["GeometryDash", "libcocos2d.dll"]),
        file(&["GeometryDash", "GeometryDash.exe"]),
    ];
    assert_eq!(
        locate_unpacked(PlatformLayout::FlatBinary, &listing),
        Ok(cache(&["GeometryDash", "GeometryDash"]))
    );
    let listing = vec![dir(&["gd"]), file(&["gd", "GEOMETRYDASH.EXE"])];
    assert_eq!(
        locate_unpacked(PlatformLayout::FlatBinary, &listing),
        Ok(cache(&["GeometryDash", "gd"]))
    );
}

#[test]
fn unpacked_flat_archive_without_executable_is_an_acquisition_failure() {
    assert_eq!(
        locate_unpacked(PlatformLayout::FlatBinary, &vec![file(&["readme.txt"])]),
        Err(PatchError::Acquisition { detail: NO_EXECUTABLE.to_string() })
    );
    assert_eq!(
        locate_unpacked(PlatformLayout::FlatBinary, &vec![file(&["GeometryDash.exe"])]),
        Ok(cache(&["GeometryDash"]))
    );
}

#[test]
fn warm_cache_fetches_nothing() {
    let listing = vec![dir(&["GeometryDash.app"])];
    let found = locate_installation(PlatformLayout::Bundle, &listing);
    assert!(found.is_some());
    let first = acquisition_steps(PlatformLayout::Bundle, found.is_some());
    assert_eq!(first, Vec::<AcquireStep>::new());
    let again = locate_installation(PlatformLayout::Bundle, &listing);
    assert_eq!(found, again);
    let second = acquisition_steps(PlatformLayout::Bundle, again.is_some());
    assert!(!second.contains(&AcquireStep::Download));
    assert_eq!(acquisition_steps(PlatformLayout::FlatBinary, true), Vec::<AcquireStep>::new());
}

#[test]
fn cold_cache_fetches_unpacks_and_deletes_the_archive() {
    assert_eq!(
        acquisition_steps(PlatformLayout::FlatBinary, false),
        vec![
            AcquireStep::CreateCacheDir,
            AcquireStep::Download,
            AcquireStep::WriteArchive,
            AcquireStep::Unpack,
            AcquireStep::RemoveArchive
        ]
    );
    assert_eq!(
        acquisition_steps(PlatformLayout::Bundle, false),
        vec![
            AcquireStep::CreateCacheDir,
            AcquireStep::Download,
            AcquireStep::WriteArchive,
            AcquireStep::Unpack,
            AcquireStep::RemoveArchive,
            AcquireStep::MarkExecutable
        ]
    );
}

#[test]
fn download_may_take_minutes() {
    assert_eq!(DOWNLOAD_TIMEOUT_SECONDS, 15 * 60);
    assert_eq!(MARK_PROGRAM, "chmod");
    assert_eq!(MARK_ARGUMENT, "+x");
}

#[test]
fn archive_is_deleted_after_a_failure_too() {
    assert_eq!(cleanup_after(AcquireStep::CreateCacheDir), Vec::<AcquireStep>::new());
    assert_eq!(cleanup_after(AcquireStep::Download), Vec::<AcquireStep>::new());
    assert_eq!(cleanup_after(AcquireStep::WriteArchive), vec![AcquireStep::RemoveArchive]);
    assert_eq!(cleanup_after(AcquireStep::Unpack), vec![AcquireStep::RemoveArchive]);
    assert_eq!(cleanup_after(AcquireStep::RemoveArchive), Vec::<AcquireStep>::new());
    assert_eq!(cleanup_after(AcquireStep::MarkExecutable), Vec::<AcquireStep>::new());
}

#[test]
fn archive_that_cannot_be_deleted_is_a_warning() {
    assert_eq!(
        acquisition_failure(AcquireStep::RemoveArchive, "busy".to_string()),
        Ok(Warning::ArchiveNotRemoved { detail: "busy".to_string() })
    );
    for step in [
        AcquireStep::CreateCacheDir,
        AcquireStep::Download,
        AcquireStep::WriteArchive,
        AcquireStep::Unpack,
        AcquireStep::MarkExecutable,
    ] {
        assert_eq!(
            acquisition_failure(step, "timed out".to_string()),
            Err(PatchError::Acquisition { detail: "timed out".to_string() })
        );
    }
}

#[test]
fn archive_entries_ending_in_a_slash_are_directories() {
    assert_eq!(classify_entry("GeometryDash/"), ArchiveEntry::Directory);
    assert_eq!(classify_entry("GeometryDash/Resources/"), ArchiveEntry::Directory);
    assert_eq!(classify_entry("/"), ArchiveEntry::Directory);
    assert_eq!(classify_entry("GeometryDash/GeometryDash.exe"), ArchiveEntry::File);
    assert_eq!(classify_entry("file"), ArchiveEntry::File);
    assert_eq!(classify_entry(""), ArchiveEntry::File);
    assert_eq!(classify_entry("dir\\"), ArchiveEntry::File);
}

#[test]
fn staging_removes_an_existing_directory_first() {
    assert_eq!(
        staging_steps(true),
        vec![
            StagingStep::RemoveServerDir,
            StagingStep::CreateServerDir,
            StagingStep::CopyInstallation
        ]
    );
}

#[test]
fn staging_a_new_server_only_creates_and_copies() {
    assert_eq!(
        staging_steps(false),
        vec![StagingStep::CreateServerDir, StagingStep::CopyInstallation]
    );
}

#[test]
fn staging_twice_takes_the_same_steps() {
    let first = staging_steps(false);
    let second = staging_steps(true);
    let third = staging_steps(true);
    assert_eq!(second, third);
    assert_eq!(&second[1..], &first[..]);
    assert_eq!(second[0], StagingStep::RemoveServerDir);
}

#[test]
fn entries_are_copied_to_the_same_relative_place() {
    let target = staging_target(PlatformLayout::Bundle, "abc");
    assert_eq!(
        copy_action(&target, &dir(&["Contents", "MacOS"])),
        CopyAction {
            kind: CopyKind::Directory,
            to: data(&["servers", "abc", "GeometryDash.app", "Contents", "MacOS"]),
        }
    );
    assert_eq!(
        copy_action(&target, &file(&["Contents", "MacOS", "Geometry Dash"])),
        CopyAction { kind: CopyKind::File, to: staged_binary(PlatformLayout::Bundle, "abc") }
    );
    let target = staging_target(PlatformLayout::FlatBinary, "abc");
    assert_eq!(
        copy_action(&target, &file(&["GeometryDash.exe"])),
        CopyAction { kind: CopyKind::File, to: staged_binary(PlatformLayout::FlatBinary, "abc") }
    );
    assert_eq!(
        copy_action(&target, &dir(&[])),
        CopyAction { kind: CopyKind::Directory, to: data(&["servers", "abc"]) }
    );
}

#[test]
fn copy_plan_follows_the_listing() {
    let target = staging_target(PlatformLayout::FlatBinary, "abc");
    let listing = vec![
        dir(&["Resources"]),
        file(&["Resources", "sheet.png"]),
        file(&["GeometryDash.exe"]),
    ];
    assert_eq!(
        copy_plan(&target, &listing),
        vec![
            CopyAction { kind: CopyKind::Directory, to: data(&["servers", "abc", "Resources"]) },
            CopyAction {
                kind: CopyKind::File,
                to: data(&["servers", "abc", "Resources", "sheet.png"]),
            },
            CopyAction { kind: CopyKind::File, to: data(&["servers", "abc", "GeometryDash.exe"]) },
        ]
    );
    assert_eq!(copy_plan(&target, &vec![]), Vec::<CopyAction>::new());
}

#[test]
fn profiles_are_the_directories_with_readable_names() {
    let children = vec![
        Child { name: Some("abc".to_string()), is_dir: true },
        Child { name: Some("notes.txt".to_string()), is_dir: false },
        Child { name: None, is_dir: true },
        Child { name: Some("xyz".to_string()), is_dir: true },
        Child { name: None, is_dir: false },
    ];
    assert_eq!(profile_ids(&children), vec!["abc".to_string(), "xyz".to_string()]);
}

#[test]
fn no_entries_no_profiles() {
    assert_eq!(profile_ids(&vec![]), Vec::<String>::new());
}
