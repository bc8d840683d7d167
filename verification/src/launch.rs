//! Starting a staged installation.

use crate::error::RunError;
use crate::layout::{
    launch_target, launch_target_names, server_dir, server_dir_names, Location, PlatformLayout,
    Root,
};
use vstd::prelude::*;

verus! {

/// The program that opens an application bundle.
pub const BUNDLE_OPENER: &'static str = "open";

/// How a staged installation is started. The process is detached; nobody
/// waits for it.
#[derive(Debug, Clone, PartialEq, Eq)]
pub enum Launch {
    /// Hand the bundle to the program that opens bundles.
    OpenBundle { bundle: Location },
    /// Start the executable with the server's directory as its working
    /// directory: the game looks for its resources relative to it.
    RunExecutable { executable: Location, working_dir: Location },
}

/// How the installation of server `id` is started on a platform.
pub open spec fn launch_of(layout: PlatformLayout, id: Seq<char>, launch: Launch) -> bool {
    match layout {
        PlatformLayout::Bundle => launch matches Launch::OpenBundle { bundle } && bundle@ == (
            Root::Data,
            launch_target_names(layout, id),
        ),
        PlatformLayout::FlatBinary => launch matches Launch::RunExecutable {
            executable,
            working_dir,
        } && executable@ == (Root::Data, launch_target_names(layout, id)) && working_dir@ == (
            Root::Data,
            server_dir_names(id),
        ),
    }
}

/// Decides what a run request does, from what was found on disk: whether
/// the server's directory exists, and whether it holds what is to be
/// started. A server without a directory is `NotInstalled`, whatever else
/// holds; a directory without the bundle or executable is
/// `ExecutableMissing`.
pub fn plan_launch(
    layout: PlatformLayout,
    id: &str,
    server_dir_exists: bool,
    target_exists: bool,
) -> (outcome: Result<Launch, RunError>)
    ensures
        !server_dir_exists ==> outcome == Err::<Launch, RunError>(RunError::NotInstalled),
        server_dir_exists && !target_exists ==> outcome == Err::<Launch, RunError>(
            RunError::ExecutableMissing,
        ),
        server_dir_exists && target_exists ==> (outcome matches Ok(launch) && launch_of(
            layout,
            id@,
            launch,
        )),
{
    if !server_dir_exists {
        return Err(RunError::NotInstalled);
    }
    if !target_exists {
        return Err(RunError::ExecutableMissing);
    }
    match layout {
        PlatformLayout::Bundle => Ok(Launch::OpenBundle { bundle: launch_target(layout, id) }),
        PlatformLayout::FlatBinary => Ok(
            Launch::RunExecutable {
                executable: launch_target(layout, id),
                working_dir: server_dir(id),
            },
        ),
    }
}

/// What a run request ends with once the process has been asked for:
/// success when it was started, and `Spawn` with the account of the
/// operating system when it could not be created.
pub fn launch_outcome(started: Result<(), String>) -> (outcome: Result<(), RunError>)
    ensures
        outcome is Ok <==> started is Ok,
        outcome matches Err(error) ==> error == (RunError::Spawn { detail: started->Err_0 }),
{
    match started {
        Ok(_) => Ok(()),
        Err(detail) => Err(RunError::Spawn { detail }),
    }
}

} // verus!
