use gdps_patcher::endpoint::ORIGINAL_ENDPOINT;
use gdps_patcher::error::{PatchError, RunError, Warning};
use gdps_patcher::inflight::InFlight;
use gdps_patcher::launch::{launch_outcome, plan_launch, Launch, BUNDLE_OPENER};
use gdps_patcher::layout::{Location, PlatformLayout, Root};
use gdps_patcher::pipeline::{failure, patch_plan, PatchJob, PatchStep};
use gdps_patcher::signing::{
    arguments, command_outcome, program, resign_outcome, resign_steps, CommandRun, ResignStep,
};
use gdps_patcher::text::{decimal, lower_ascii, same_bytes, same_ignoring_case, same_text};

fn data_location(names: &[&str]) -> Location {
    Location { root: Root::Data, components: names.iter().map(|name| name.to_string()).collect() }
}

#[test]
fn request_with_fitting_endpoint_is_accepted() {
    let job = PatchJob::new("abc", PlatformLayout::Bundle).unwrap();
    assert_eq!(job.server_id(), "abc");
    assert_eq!(job.platform(), PlatformLayout::Bundle);
    let job = PatchJob::new("", PlatformLayout::FlatBinary).unwrap();
    assert_eq!(job.server_id(), "");
    assert_eq!(job.platform(), PlatformLayout::FlatBinary);
}

#[test]
fn request_with_four_byte_id_is_the_longest_accepted() {
    assert!(PatchJob::new("abcd", PlatformLayout::FlatBinary).is_ok());
    assert_eq!(
        PatchJob::new("abcde", PlatformLayout::FlatBinary).err(),
        Some(PatchError::PayloadTooLarge { max: 35, got: 36 })
    );
}

#[test]
fn request_length_counts_bytes_not_characters() {
    assert!(PatchJob::new("\u{e9}\u{e9}", PlatformLayout::Bundle).is_ok());
    assert_eq!(
        PatchJob::new("\u{e9}\u{e9}\u{e9}", PlatformLayout::Bundle).err(),
        Some(PatchError::PayloadTooLarge { max: 35, got: 37 })
    );
}

#[test]
fn oversized_request_is_refused_before_any_step() {
    let outcome = PatchJob::new("a-very-long-server-id", PlatformLayout::Bundle);
    assert_eq!(outcome.err(), Some(PatchError::PayloadTooLarge { max: 35, got: 52 }));
}

#[test]
fn bundle_request_ends_with_signing() {
    assert_eq!(
        patch_plan(PlatformLayout::Bundle),
        vec![
            PatchStep::Acquire,
            PatchStep::Stage,
            PatchStep::ReadBinary,
            PatchStep::WriteBinary,
            PatchStep::Resign
        ]
    );
    let job = PatchJob::new("abc", PlatformLayout::Bundle).unwrap();
    assert_eq!(job.steps(), patch_plan(PlatformLayout::Bundle));
}

#[test]
fn flat_request_is_not_signed() {
    assert_eq!(
        patch_plan(PlatformLayout::FlatBinary),
        vec![PatchStep::Acquire, PatchStep::Stage, PatchStep::ReadBinary, PatchStep::WriteBinary]
    );
    let job = PatchJob::new("abc", PlatformLayout::FlatBinary).unwrap();
    assert_eq!(job.steps(), patch_plan(PlatformLayout::FlatBinary));
}

#[test]
fn failure_of_each_step_has_its_error() {
    let detail = || "it broke".to_string();
    assert_eq!(
        failure(PatchStep::Acquire, detail()),
        PatchError::Acquisition { detail: detail() }
    );
    assert_eq!(failure(PatchStep::Stage, detail()), PatchError::Staging { detail: detail() });
    assert_eq!(failure(PatchStep::ReadBinary, detail()), PatchError::Io { detail: detail() });
    assert_eq!(failure(PatchStep::WriteBinary, detail()), PatchError::Io { detail: detail() });
    assert_eq!(failure(PatchStep::Resign, detail()), PatchError::Signing { detail: detail() });
}

#[test]
fn accepted_request_patches_the_binary() {
    let original = ORIGINAL_ENDPOINT.as_bytes();
    let mut data: Vec<u8> = Vec::new();
    data.extend_from_slice(original);
    data.extend_from_slice(b"::");
    data.extend_from_slice(original);
    let job = PatchJob::new("abc", PlatformLayout::FlatBinary).unwrap();
    job.patch(&mut data);
    let mut expected: Vec<u8> = Vec::new();
    expected.extend_from_slice(b"https://gdps.rigby.host/abc/db////\0");
    expected.extend_from_slice(b"::");
    expected.extend_from_slice(original);
    assert_eq!(data, expected);
}

#[test]
fn patch_error_messages() {
    assert_eq!(
        PatchError::PayloadTooLarge { max: 35, got: 36 }.message(),
        "URL too long! Max: 35, Got: 36"
    );
    assert_eq!(
        PatchError::PayloadTooLarge { max: 0, got: 1000 }.message(),
        "URL too long! Max: 0, Got: 1000"
    );
    assert_eq!(PatchError::Acquisition { detail: "no network".to_string() }.message(), "no network");
    assert_eq!(PatchError::Staging { detail: "disk full".to_string() }.message(), "disk full");
    assert_eq!(PatchError::Io { detail: "denied".to_string() }.message(), "denied");
    assert_eq!(PatchError::Signing { detail: "codesign".to_string() }.message(), "codesign");
}

#[test]
fn run_error_messages() {
    assert_eq!(RunError::NotInstalled.message(PlatformLayout::Bundle), "Server not installed");
    assert_eq!(RunError::NotInstalled.message(PlatformLayout::FlatBinary), "Server not installed");
    assert_eq!(
        RunError::ExecutableMissing.message(PlatformLayout::Bundle),
        "Game bundle not found"
    );
    assert_eq!(
        RunError::ExecutableMissing.message(PlatformLayout::FlatBinary),
        "Game executable not found"
    );
    assert_eq!(
        RunError::Spawn { detail: "no such file".to_string() }.message(PlatformLayout::Bundle),
        "no such file"
    );
}

#[test]
fn decimal_writes_numbers() {
    assert_eq!(decimal(0), "0");
    assert_eq!(decimal(7), "7");
    assert_eq!(decimal(10), "10");
    assert_eq!(decimal(35), "35");
    assert_eq!(decimal(1234567890), "1234567890");
    assert_eq!(decimal(usize::MAX), usize::MAX.to_string());
}

#[test]
fn text_comparisons() {
    assert!(same_bytes(b"abc", b"abc"));
    assert!(!same_bytes(b"abc", b"abd"));
    assert!(!same_bytes(b"abc", b"ab"));
    assert!(same_bytes(b"", b""));
    assert!(same_text("GeometryDash", "GeometryDash"));
    assert!(!same_text("GeometryDash", "geometrydash"));
    assert!(same_ignoring_case("GeometryDash.exe", "geometrydash.EXE"));
    assert!(!same_ignoring_case("GeometryDash.exe", "GeometryDash.ex"));
    assert!(!same_ignoring_case("a[", "a{"));
    assert!(!same_ignoring_case("a@", "a`"));
    assert_eq!(lower_ascii(b'A'), b'a');
    assert_eq!(lower_ascii(b'Z'), b'z');
    assert_eq!(lower_ascii(b'a'), b'a');
    assert_eq!(lower_ascii(b'@'), b'@');
    assert_eq!(lower_ascii(b'['), b'[');
    assert_eq!(lower_ascii(0xc9), 0xc9);
}

#[test]
fn run_without_staged_directory_is_not_installed() {
    assert_eq!(
        plan_launch(PlatformLayout::Bundle, "abc", false, false),
        Err(RunError::NotInstalled)
    );
    assert_eq!(
        plan_launch(PlatformLayout::FlatBinary, "abc", false, false),
        Err(RunError::NotInstalled)
    );
    assert_eq!(
        plan_launch(PlatformLayout::FlatBinary, "abc", false, true),
        Err(RunError::NotInstalled)
    );
}

#[test]
fn run_without_executable_is_executable_missing() {
    assert_eq!(
        plan_launch(PlatformLayout::Bundle, "abc", true, false),
        Err(RunError::ExecutableMissing)
    );
    assert_eq!(
        plan_launch(PlatformLayout::FlatBinary, "abc", true, false),
        Err(RunError::ExecutableMissing)
    );
}

#[test]
fn bundle_is_opened() {
    assert_eq!(BUNDLE_OPENER, "open");
    assert_eq!(
        plan_launch(PlatformLayout::Bundle, "abc", true, true),
        Ok(Launch::OpenBundle { bundle: data_location(&["servers", "abc", "GeometryDash.app"]) })
    );
}

#[test]
fn executable_runs_in_the_server_directory() {
    assert_eq!(
        plan_launch(PlatformLayout::FlatBinary, "abc", true, true),
        Ok(Launch::RunExecutable {
            executable: data_location(&["servers", "abc", "GeometryDash.exe"]),
            working_dir: data_location(&["servers", "abc"]),
        })
    );
}

#[test]
fn process_that_cannot_be_created_is_a_spawn_error() {
    assert_eq!(launch_outcome(Ok(())), Ok(()));
    assert_eq!(
        launch_outcome(Err("permission denied".to_string())),
        Err(RunError::Spawn { detail: "permission denied".to_string() })
    );
}

#[test]
fn resign_runs_three_commands_in_order() {
    assert_eq!(
        resign_steps(),
        vec![ResignStep::ClearQuarantine, ResignStep::StripSignature, ResignStep::Sign]
    );
    assert_eq!(program(ResignStep::ClearQuarantine), "xattr");
    assert_eq!(arguments(ResignStep::ClearQuarantine), vec!["-rd", "com.apple.quarantine"]);
    assert_eq!(program(ResignStep::StripSignature), "codesign");
    assert_eq!(arguments(ResignStep::StripSignature), vec!["--remove-signature"]);
    assert_eq!(program(ResignStep::Sign), "codesign");
    assert_eq!(arguments(ResignStep::Sign), vec!["--force", "--deep", "--sign", "-"]);
}

#[test]
fn command_that_ran_and_reported_success_has_succeeded() {
    for step in resign_steps() {
        assert_eq!(
            command_outcome(step, CommandRun::Exited { success: true, errors: String::new() }),
            Ok(())
        );
        assert_eq!(
            command_outcome(
                step,
                CommandRun::Exited { success: true, errors: "a warning".to_string() }
            ),
            Ok(())
        );
    }
}

#[test]
fn command_that_reported_failure_has_failed() {
    assert_eq!(
        command_outcome(
            ResignStep::ClearQuarantine,
            CommandRun::Exited { success: false, errors: "No such xattr".to_string() }
        ),
        Err("xattr -rd com.apple.quarantine: No such xattr".to_string())
    );
    assert_eq!(
        command_outcome(
            ResignStep::StripSignature,
            CommandRun::Exited { success: false, errors: "not signed".to_string() }
        ),
        Err("codesign --remove-signature: not signed".to_string())
    );
    assert_eq!(
        command_outcome(
            ResignStep::Sign,
            CommandRun::Exited { success: false, errors: String::new() }
        ),
        Err("codesign --force --deep --sign -: ".to_string())
    );
}

#[test]
fn command_that_did_not_start_has_failed() {
    assert_eq!(
        command_outcome(
            ResignStep::Sign,
            CommandRun::NotStarted { detail: "No such file or directory".to_string() }
        ),
        Err("No such file or directory".to_string())
    );
}

#[test]
fn failed_signing_command_fails_the_resign() {
    let cleared = command_outcome(
        ResignStep::ClearQuarantine,
        CommandRun::Exited { success: false, errors: "none".to_string() },
    );
    let stripped = command_outcome(
        ResignStep::StripSignature,
        CommandRun::Exited { success: true, errors: String::new() },
    );
    let signed = command_outcome(
        ResignStep::Sign,
        CommandRun::Exited { success: false, errors: "denied".to_string() },
    );
    assert_eq!(
        resign_outcome(cleared, stripped, signed),
        Err(PatchError::Signing {
            detail: "xattr -rd com.apple.quarantine: none; codesign --force --deep --sign -: denied"
                .to_string()
        })
    );
}

#[test]
fn resign_succeeds_when_the_signature_was_applied() {
    assert_eq!(resign_outcome(Ok(()), Ok(()), Ok(())), Ok(()));
    assert_eq!(resign_outcome(Err("no flag".to_string()), Ok(()), Ok(())), Ok(()));
    assert_eq!(resign_outcome(Ok(()), Err("unsigned".to_string()), Ok(())), Ok(()));
    assert_eq!(
        resign_outcome(Err("no flag".to_string()), Err("unsigned".to_string()), Ok(())),
        Ok(())
    );
}

#[test]
fn resign_fails_when_signing_failed() {
    assert_eq!(
        resign_outcome(Ok(()), Ok(()), Err("denied".to_string())),
        Err(PatchError::Signing { detail: "denied".to_string() })
    );
    assert_eq!(
        resign_outcome(Err("no flag".to_string()), Ok(()), Err("denied".to_string())),
        Err(PatchError::Signing { detail: "no flag; denied".to_string() })
    );
    assert_eq!(
        resign_outcome(Ok(()), Err("unsigned".to_string()), Err("denied".to_string())),
        Err(PatchError::Signing { detail: "unsigned; denied".to_string() })
    );
    assert_eq!(
        resign_outcome(
            Err("no flag".to_string()),
            Err("unsigned".to_string()),
            Err("denied".to_string())
        ),
        Err(PatchError::Signing { detail: "no flag; unsigned; denied".to_string() })
    );
}

#[test]
fn warning_is_comparable() {
    assert_eq!(
        Warning::ArchiveNotRemoved { detail: "busy".to_string() },
        Warning::ArchiveNotRemoved { detail: "busy".to_string() }
    );
}

#[test]
fn one_request_per_server_id() {
    let mut table = InFlight::new();
    assert!(!table.is_held("abc"));
    assert!(table.try_begin("abc"));
    assert!(table.is_held("abc"));
    assert!(!table.try_begin("abc"));
    assert!(table.is_held("abc"));
    assert!(table.try_begin("xyz"));
    assert!(table.is_held("xyz"));
    table.finish("abc");
    assert!(!table.is_held("abc"));
    assert!(table.is_held("xyz"));
    assert!(table.try_begin("abc"));
    table.finish("xyz");
    table.finish("abc");
    assert!(!table.is_held("abc"));
    assert!(!table.is_held("xyz"));
}

#[test]
fn finishing_an_id_that_is_not_held_changes_nothing() {
    let mut table = InFlight::new();
    assert!(table.try_begin("abc"));
    table.finish("other");
    assert!(table.is_held("abc"));
    assert!(!table.is_held("other"));
}

#[test]
fn one_acquisition_at_a_time() {
    let mut table = InFlight::new();
    assert!(!table.is_acquiring());
    assert!(table.try_begin_acquisition());
    assert!(table.is_acquiring());
    assert!(!table.try_begin_acquisition());
    assert!(table.is_acquiring());
    assert!(table.try_begin("abc"));
    table.finish_acquisition();
    assert!(!table.is_acquiring());
    assert!(table.is_held("abc"));
    assert!(table.try_begin_acquisition());
}
