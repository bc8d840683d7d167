//! Acquisition: finding the base installation in the cache, and what has to
//! be done to fetch it when it is not there.
//!
//! The cache is looked at through a listing: every entry below the cache
//! directory, by its names relative to that directory. The caller walks the
//! directory and fetches, unpacks and deletes; what is decided here is where
//! the installation is, which steps a fetch takes, what each entry of the
//! archive becomes, and what is cleaned up after a failure.

use crate::error::{PatchError, Warning};
use crate::layout::{
    names, Entry, Location, PlatformLayout, Root, BUNDLE_NAME, FLAT_EXECUTABLE, INSTALL_DIR,
};
use crate::text::{equal_ignoring_case, same_ignoring_case, same_text};
use vstd::prelude::*;
use vstd::string::*;
use vstd::utf8::*;

verus! {

/// How many seconds the one request for the archive may take. The archive
/// has tens to hundreds of megabytes, so the limit is counted in minutes.
pub const DOWNLOAD_TIMEOUT_SECONDS: u64 = 900;

/// The program that marks the executable inside an unpacked bundle as
/// executable, and the argument that stands before the path.
pub const MARK_PROGRAM: &'static str = "chmod";

pub const MARK_ARGUMENT: &'static str = "+x";

/// What the user is told when an unpacked archive of the flat layout holds
/// no executable.
pub const NO_EXECUTABLE: &'static str = "Game executable not found in the downloaded archive";

/// The listing has an entry of the given name directly in the cache
/// directory; with `is_dir` given, one of that kind.
pub open spec fn top_level(listing: Seq<Entry>, name: Seq<char>, is_dir: Option<bool>) -> bool {
    exists|i: int|
        0 <= i < listing.len() && names((#[trigger] listing[i]).path@) == seq![name] && (
        is_dir matches Some(kind) ==> listing[i].is_dir == kind)
}

/// The listing has a file of the given name directly in the directory of
/// the given name, which stands directly in the cache directory.
pub open spec fn nested_file(listing: Seq<Entry>, directory: Seq<char>, name: Seq<char>) -> bool {
    exists|i: int|
        0 <= i < listing.len() && !(#[trigger] listing[i]).is_dir && names(listing[i].path@)
            == seq![directory, name]
}

/// The entry is a file whose name is that of the executable, but for the
/// case of its letters.
pub open spec fn is_executable(entry: Entry) -> bool {
    &&& !entry.is_dir
    &&& entry.path@.len() > 0
    &&& equal_ignoring_case(encode_utf8(entry.path@.last()@), encode_utf8(FLAT_EXECUTABLE@))
}

/// The index of the first executable that the listing has from `from` on.
pub open spec fn first_executable_from(listing: Seq<Entry>, from: int) -> Option<int>
    decreases listing.len() - from,
{
    if from < 0 || from >= listing.len() {
        None
    } else if is_executable(listing[from]) {
        Some(from)
    } else {
        first_executable_from(listing, from + 1)
    }
}

/// The listing has an executable somewhere.
pub open spec fn holds_executable(listing: Seq<Entry>) -> bool {
    exists|i: int| 0 <= i < listing.len() && is_executable(#[trigger] listing[i])
}

/// `place`, given by its names below the cache root, is the directory of an
/// executable of the listing.
pub open spec fn holds_executable_in(listing: Seq<Entry>, place: Seq<Seq<char>>) -> bool {
    exists|i: int|
        0 <= i < listing.len() && is_executable(#[trigger] listing[i]) && place == seq![
            INSTALL_DIR@,
        ] + names(listing[i].path@).drop_last()
}

/// Where the base installation is, by its names below the cache root, if
/// the listing of the cache directory shows one.
///
/// A bundle is looked for under its name, directly in the cache directory.
/// For the flat layout the installation is the directory of an executable,
/// and three checks choose among several, the first that succeeds deciding:
/// the executable directly in the cache directory; the executable directly
/// in the directory of the installation's name; the first file anywhere in
/// the listing that is named like the executable but for the case of its
/// letters. A directory without an executable is never an installation.
pub open spec fn located(layout: PlatformLayout, listing: Seq<Entry>) -> Option<Seq<Seq<char>>> {
    match layout {
        PlatformLayout::Bundle => if top_level(listing, BUNDLE_NAME@, None) {
            Some(seq![INSTALL_DIR@, BUNDLE_NAME@])
        } else {
            None
        },
        PlatformLayout::FlatBinary => if top_level(listing, FLAT_EXECUTABLE@, Some(false)) {
            Some(seq![INSTALL_DIR@])
        } else if nested_file(listing, INSTALL_DIR@, FLAT_EXECUTABLE@) {
            Some(seq![INSTALL_DIR@, INSTALL_DIR@])
        } else {
            match first_executable_from(listing, 0) {
                Some(i) => Some(seq![INSTALL_DIR@] + names(listing[i].path@).drop_last()),
                None => None,
            }
        },
    }
}

/// The first executable from `from` on is at `at` when that entry is one
/// and none of those before it is.
proof fn lemma_first_executable(listing: Seq<Entry>, from: int, at: int)
    requires
        0 <= from <= at <= listing.len(),
        forall|j: int| from <= j < at ==> !is_executable(#[trigger] listing[j]),
        at < listing.len() ==> is_executable(listing[at]),
    ensures
        first_executable_from(listing, from) == if at < listing.len() {
            Some(at)
        } else {
            None
        },
    decreases at - from,
{
    if from < at {
        assert(!is_executable(listing[from]));
        lemma_first_executable(listing, from + 1, at);
    }
}

/// What the search from `from` on finds is an executable, and it finds one
/// wherever there is one.
proof fn lemma_first_executable_is_one(listing: Seq<Entry>, from: int)
    requires
        0 <= from,
    ensures
        first_executable_from(listing, from) matches Some(at) ==> from <= at < listing.len()
            && is_executable(listing[at]),
        first_executable_from(listing, from) is None ==> forall|j: int|
            from <= j < listing.len() ==> !is_executable(#[trigger] listing[j]),
    decreases listing.len() - from,
{
    if from < listing.len() && !is_executable(listing[from]) {
        lemma_first_executable_is_one(listing, from + 1);
    }
}

/// On the flat layout an installation is found exactly where the listing
/// has an executable, and what is found is the directory of one.
pub proof fn lemma_located_by_executable(listing: Seq<Entry>)
    ensures
        located(PlatformLayout::FlatBinary, listing) is Some <==> holds_executable(listing),
        located(PlatformLayout::FlatBinary, listing) matches Some(place) ==> holds_executable_in(
            listing,
            place,
        ),
{
    let layout = PlatformLayout::FlatBinary;
    lemma_first_executable_is_one(listing, 0);
    if top_level(listing, FLAT_EXECUTABLE@, Some(false)) {
        let i = choose|i: int|
            0 <= i < listing.len() && names((#[trigger] listing[i]).path@) == seq![
                FLAT_EXECUTABLE@,
            ] && (Some(false) matches Some(kind) ==> listing[i].is_dir == kind);
        let path = names(listing[i].path@);
        assert(path.len() == 1 && path[0] == listing[i].path@[0]@);
        assert(is_executable(listing[i]));
        assert(seq![INSTALL_DIR@] + path.drop_last() =~= seq![INSTALL_DIR@]);
    } else if nested_file(listing, INSTALL_DIR@, FLAT_EXECUTABLE@) {
        let i = choose|i: int|
            0 <= i < listing.len() && !(#[trigger] listing[i]).is_dir && names(listing[i].path@)
                == seq![INSTALL_DIR@, FLAT_EXECUTABLE@];
        let path = names(listing[i].path@);
        assert(path.len() == 2 && path[1] == listing[i].path@[1]@ && path[0] == INSTALL_DIR@);
        assert(is_executable(listing[i]));
        assert(seq![INSTALL_DIR@] + path.drop_last() =~= seq![INSTALL_DIR@, INSTALL_DIR@]);
    } else {
        match first_executable_from(listing, 0) {
            Some(at) => {
                assert(is_executable(listing[at]));
            },
            None => {},
        }
    }
}

/// Whether a path consists of the one given name.
fn is_single(path: &Vec<String>, name: &str) -> (single: bool)
    ensures
        single == (names(path@) == seq![name@]),
{
    if path.len() != 1 {
        assert(names(path@).len() != seq![name@].len());
        return false;
    }
    let single = same_text(path[0].as_str(), name);
    proof {
        assert(names(path@)[0] == path@[0]@);
        if single {
            assert(names(path@) =~= seq![name@]);
        } else {
            assert(seq![name@][0] == name@);
        }
    }
    single
}

/// Whether the listing has an entry of the given name directly in the cache
/// directory; with `is_dir` given, one of that kind.
pub fn has_top_level(listing: &Vec<Entry>, name: &str, is_dir: Option<bool>) -> (found: bool)
    ensures
        found == top_level(listing@, name@, is_dir),
{
    let mut k: usize = 0;
    while k < listing.len()
        invariant
            k <= listing@.len(),
            forall|i: int|
                0 <= i < k ==> !(names((#[trigger] listing@[i]).path@) == seq![name@] && (
                is_dir matches Some(kind) ==> listing@[i].is_dir == kind)),
        decreases listing@.len() - k,
    {
        let entry = &listing[k];
        let of_kind = match is_dir {
            Some(kind) => entry.is_dir == kind,
            None => true,
        };
        if of_kind && is_single(&entry.path, name) {
            return true;
        }
        k = k + 1;
    }
    false
}

/// Whether a path consists of the two given names.
fn is_pair(path: &Vec<String>, first: &str, second: &str) -> (pair: bool)
    ensures
        pair == (names(path@) == seq![first@, second@]),
{
    if path.len() != 2 {
        assert(names(path@).len() != seq![first@, second@].len());
        return false;
    }
    let pair = same_text(path[0].as_str(), first) && same_text(path[1].as_str(), second);
    proof {
        assert(names(path@)[0] == path@[0]@);
        assert(names(path@)[1] == path@[1]@);
        if pair {
            assert(names(path@) =~= seq![first@, second@]);
        } else {
            assert(seq![first@, second@][0] == first@);
            assert(seq![first@, second@][1] == second@);
        }
    }
    pair
}

/// Whether the listing has a file of the given name directly in the
/// directory of the given name, which stands directly in the cache
/// directory.
pub fn has_nested_file(listing: &Vec<Entry>, directory: &str, name: &str) -> (found: bool)
    ensures
        found == nested_file(listing@, directory@, name@),
{
    let mut k: usize = 0;
    while k < listing.len()
        invariant
            k <= listing@.len(),
            forall|i: int|
                0 <= i < k ==> !(!(#[trigger] listing@[i]).is_dir && names(listing@[i].path@)
                    == seq![directory@, name@]),
        decreases listing@.len() - k,
    {
        let entry = &listing[k];
        if !entry.is_dir && is_pair(&entry.path, directory, name) {
            return true;
        }
        k = k + 1;
    }
    false
}

/// Whether an entry is a file named like the executable, but for the case
/// of its letters.
pub fn names_executable(entry: &Entry) -> (hit: bool)
    ensures
        hit == is_executable(*entry),
{
    if entry.is_dir || entry.path.len() == 0 {
        return false;
    }
    let last: usize = entry.path.len() - 1;
    same_ignoring_case(entry.path[last].as_str(), FLAT_EXECUTABLE)
}

/// The names of a path without the last one, after the name of the cache
/// directory.
fn directory_of(path: &Vec<String>) -> (directory: Vec<String>)
    requires
        path@.len() > 0,
    ensures
        names(directory@) == seq![INSTALL_DIR@] + names(path@).drop_last(),
{
    let mut directory: Vec<String> = Vec::new();
    directory.push(String::from_str(INSTALL_DIR));
    let depth: usize = path.len() - 1;
    let mut k: usize = 0;
    while k < depth
        invariant
            k <= depth,
            depth == path@.len() - 1,
            directory@.len() == k + 1,
            directory@[0]@ == INSTALL_DIR@,
            forall|i: int| 0 <= i < k ==> (#[trigger] directory@[i + 1])@ == path@[i]@,
        decreases depth - k,
    {
        directory.push(path[k].clone());
        k = k + 1;
    }
    assert(names(directory@) =~= seq![INSTALL_DIR@] + names(path@).drop_last()) by {
        let joined = seq![INSTALL_DIR@] + names(path@).drop_last();
        assert(names(directory@).len() == joined.len());
        assert forall|i: int| 0 <= i < joined.len() implies names(directory@)[i] == joined[i] by {
            if i > 0 {
                assert(directory@[(i - 1) + 1]@ == path@[i - 1]@);
            }
        }
    }
    directory
}

/// A location below the cache root from its names.
fn in_cache(first: &str, second: Option<&str>) -> (location: Location)
    ensures
        location@ == (
            Root::Cache,
            match second {
                Some(name) => seq![first@, name@],
                None => seq![first@],
            },
        ),
{
    let mut components: Vec<String> = Vec::new();
    components.push(String::from_str(first));
    match second {
        Some(name) => {
            components.push(String::from_str(name));
            assert(names(components@) =~= seq![first@, name@]);
        },
        None => {
            assert(names(components@) =~= seq![first@]);
        },
    }
    Location { root: Root::Cache, components }
}

/// Finds the base installation in a listing of the cache directory. On the
/// flat layout there is one exactly where the listing has an executable,
/// and it is the directory of an executable.
pub fn locate_installation(layout: PlatformLayout, listing: &Vec<Entry>) -> (found: Option<
    Location,
>)
    ensures
        found is Some <==> located(layout, listing@) is Some,
        found matches Some(location) ==> location@ == (
            Root::Cache,
            located(layout, listing@)->Some_0,
        ),
        layout == PlatformLayout::FlatBinary ==> (found is Some <==> holds_executable(listing@)),
        layout == PlatformLayout::FlatBinary ==> (found matches Some(location)
            ==> location@.0 == Root::Cache && holds_executable_in(listing@, location@.1)),
{
    proof {
        lemma_located_by_executable(listing@);
    }
    match layout {
        PlatformLayout::Bundle => {
            if has_top_level(listing, BUNDLE_NAME, None) {
                Some(in_cache(INSTALL_DIR, Some(BUNDLE_NAME)))
            } else {
                None
            }
        },
        PlatformLayout::FlatBinary => {
            if has_top_level(listing, FLAT_EXECUTABLE, Some(false)) {
                return Some(in_cache(INSTALL_DIR, None));
            }
            if has_nested_file(listing, INSTALL_DIR, FLAT_EXECUTABLE) {
                return Some(in_cache(INSTALL_DIR, Some(INSTALL_DIR)));
            }
            let mut k: usize = 0;
            while k < listing.len()
                invariant
                    k <= listing@.len(),
                    layout == PlatformLayout::FlatBinary,
                    !top_level(listing@, FLAT_EXECUTABLE@, Some(false)),
                    !nested_file(listing@, INSTALL_DIR@, FLAT_EXECUTABLE@),
                    located(layout, listing@) is Some <==> holds_executable(listing@),
                    located(layout, listing@) matches Some(place) ==> holds_executable_in(
                        listing@,
                        place,
                    ),
                    forall|j: int| 0 <= j < k ==> !is_executable(#[trigger] listing@[j]),
                decreases listing@.len() - k,
            {
                if names_executable(&listing[k]) {
                    proof {
                        lemma_first_executable(listing@, 0, k as int);
                    }
                    let components = directory_of(&listing[k].path);
                    return Some(Location { root: Root::Cache, components });
                }
                k = k + 1;
            }
            proof {
                lemma_first_executable(listing@, 0, listing@.len() as int);
            }
            None
        },
    }
}

/// Where the installation is once an archive has been unpacked into the
/// cache directory. A bundle is taken to be where its archive puts it. For
/// the flat layout the listing is searched as before a fetch: an archive
/// that has left no executable anywhere below the cache directory is an
/// acquisition failure, and the installation that is found is the directory
/// of an executable.
pub fn locate_unpacked(layout: PlatformLayout, listing: &Vec<Entry>) -> (outcome: Result<
    Location,
    PatchError,
>)
    ensures
        layout == PlatformLayout::Bundle ==> (outcome matches Ok(location) && location@ == (
            Root::Cache,
            seq![INSTALL_DIR@, BUNDLE_NAME@],
        )),
        layout == PlatformLayout::FlatBinary ==> (outcome is Ok <==> holds_executable(listing@)),
        layout == PlatformLayout::FlatBinary ==> (outcome matches Ok(location)
            ==> location@.0 == Root::Cache && holds_executable_in(listing@, location@.1)),
        layout == PlatformLayout::FlatBinary ==> (outcome matches Ok(location) ==> location@ == (
            Root::Cache,
            located(layout, listing@)->Some_0,
        )),
        outcome matches Err(error) ==> (error matches PatchError::Acquisition { detail }
            && detail@ == NO_EXECUTABLE@),
{
    match layout {
        PlatformLayout::Bundle => Ok(in_cache(INSTALL_DIR, Some(BUNDLE_NAME))),
        PlatformLayout::FlatBinary => match locate_installation(layout, listing) {
            Some(location) => Ok(location),
            None => Err(PatchError::Acquisition { detail: String::from_str(NO_EXECUTABLE) }),
        },
    }
}

/// One step of fetching the base installation.
#[derive(Debug, Clone, Copy, PartialEq, Eq, Structural)]
pub enum AcquireStep {
    /// Create the cache directory.
    CreateCacheDir,
    /// Fetch the archive of the platform, in one request and without
    /// retrying.
    Download,
    /// Write the archive into the cache directory.
    WriteArchive,
    /// Unpack every entry of the archive into the cache directory.
    Unpack,
    /// Delete the archive.
    RemoveArchive,
    /// Mark the executable inside the bundle as executable.
    MarkExecutable,
}

/// What an entry of the archive becomes on disk.
#[derive(Debug, Clone, Copy, PartialEq, Eq, Structural)]
pub enum ArchiveEntry {
    /// A directory, which is created with all its parents.
    Directory,
    /// A file, which is written under its relative path, after its parent
    /// directories have been created.
    File,
}

/// The steps of a fetch, in the order in which they are taken. The archive
/// is deleted as soon as it has been unpacked; only a bundle has its
/// executable marked.
pub open spec fn fetch_steps(layout: PlatformLayout) -> Seq<AcquireStep> {
    match layout {
        PlatformLayout::Bundle => seq![
            AcquireStep::CreateCacheDir,
            AcquireStep::Download,
            AcquireStep::WriteArchive,
            AcquireStep::Unpack,
            AcquireStep::RemoveArchive,
            AcquireStep::MarkExecutable,
        ],
        PlatformLayout::FlatBinary => seq![
            AcquireStep::CreateCacheDir,
            AcquireStep::Download,
            AcquireStep::WriteArchive,
            AcquireStep::Unpack,
            AcquireStep::RemoveArchive,
        ],
    }
}

/// What an acquisition does: nothing where the installation is already in
/// the cache, and a fetch otherwise.
pub open spec fn acquisition_steps_of(layout: PlatformLayout, installed: bool) -> Seq<
    AcquireStep,
> {
    if installed {
        Seq::empty()
    } else {
        fetch_steps(layout)
    }
}

/// What is still done after `failed` has failed: once writing the archive
/// has been attempted, the archive is deleted whatever happened since.
pub open spec fn cleanup_of(failed: AcquireStep) -> Seq<AcquireStep> {
    if failed == AcquireStep::WriteArchive || failed == AcquireStep::Unpack {
        seq![AcquireStep::RemoveArchive]
    } else {
        Seq::empty()
    }
}

/// What a failure of `step` means: the archive that cannot be deleted is a
/// warning, and the acquisition goes on; any other failure ends it.
pub open spec fn acquisition_failure_of(step: AcquireStep, detail: String) -> Result<
    Warning,
    PatchError,
> {
    if step == AcquireStep::RemoveArchive {
        Ok(Warning::ArchiveNotRemoved { detail })
    } else {
        Err(PatchError::Acquisition { detail })
    }
}

/// The name of an archive entry is that of a directory: it ends in a slash.
pub open spec fn names_directory(name: Seq<u8>) -> bool {
    name.len() > 0 && name.last() == 0x2f
}

/// The steps of an acquisition, first step first. With the installation in
/// the cache there are none: nothing is fetched a second time.
pub fn acquisition_steps(layout: PlatformLayout, installed: bool) -> (steps: Vec<AcquireStep>)
    ensures
        steps@ == acquisition_steps_of(layout, installed),
{
    let mut steps: Vec<AcquireStep> = Vec::new();
    if !installed {
        steps.push(AcquireStep::CreateCacheDir);
        steps.push(AcquireStep::Download);
        steps.push(AcquireStep::WriteArchive);
        steps.push(AcquireStep::Unpack);
        steps.push(AcquireStep::RemoveArchive);
        match layout {
            PlatformLayout::Bundle => {
                steps.push(AcquireStep::MarkExecutable);
            },
            PlatformLayout::FlatBinary => {},
        }
    }
    assert(steps@ =~= acquisition_steps_of(layout, installed));
    steps
}

/// The steps that are still taken after `failed` has failed, before the
/// failure is reported.
pub fn cleanup_after(failed: AcquireStep) -> (steps: Vec<AcquireStep>)
    ensures
        steps@ == cleanup_of(failed),
{
    let mut steps: Vec<AcquireStep> = Vec::new();
    match failed {
        AcquireStep::WriteArchive => {
            steps.push(AcquireStep::RemoveArchive);
        },
        AcquireStep::Unpack => {
            steps.push(AcquireStep::RemoveArchive);
        },
        _ => {},
    }
    assert(steps@ =~= cleanup_of(failed));
    steps
}

/// Judges the failure of a step; `detail` is the account that the failed
/// operation gave. `Ok` holds a warning, with which the acquisition goes
/// on; `Err` holds the error that ends it.
pub fn acquisition_failure(step: AcquireStep, detail: String) -> (verdict: Result<
    Warning,
    PatchError,
>)
    ensures
        verdict == acquisition_failure_of(step, detail),
{
    match step {
        AcquireStep::RemoveArchive => Ok(Warning::ArchiveNotRemoved { detail }),
        _ => Err(PatchError::Acquisition { detail }),
    }
}

/// Tells what an entry of the archive becomes, from its name: a name that
/// ends in a slash is a directory, any other a file.
pub fn classify_entry(name: &str) -> (kind: ArchiveEntry)
    ensures
        kind == ArchiveEntry::Directory <==> names_directory(name.spec_bytes()),
{
    let bytes = name.as_bytes();
    if bytes.len() > 0 && bytes[bytes.len() - 1] == 0x2f {
        ArchiveEntry::Directory
    } else {
        ArchiveEntry::File
    }
}

} // verus!
