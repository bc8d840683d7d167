//! Where things are kept: the two storage roots, the names below them, and
//! how the two platform layouts differ.
//!
//! A location is a storage root and the names of the directories and the
//! file below it, one name per level. Turning a location into a path of the
//! machine is left to the caller, which knows the roots.

use vstd::prelude::*;
use vstd::string::*;

verus! {

/// How an installation is packaged on the platform.
#[derive(Debug, Clone, Copy, PartialEq, Eq, Structural)]
pub enum PlatformLayout {
    /// An application bundle: a directory tree with the executable inside.
    Bundle,
    /// A directory with the executable directly in it.
    FlatBinary,
}

/// One of the two directories that the caller provides.
#[derive(Debug, Clone, Copy, PartialEq, Eq, Structural)]
pub enum Root {
    /// The application cache directory: the base installation lives here.
    Cache,
    /// The application data directory: the staged installations live here.
    Data,
}

/// A place below one of the storage roots.
#[derive(Debug, Clone, PartialEq, Eq)]
pub struct Location {
    pub root: Root,
    pub components: Vec<String>,
}

/// One entry of the listing of a directory.
#[derive(Debug, Clone, PartialEq, Eq)]
pub struct Entry {
    /// The names that lead to the entry from the directory that was listed;
    /// the last one is its own.
    pub path: Vec<String>,
    /// Whether the entry is a directory.
    pub is_dir: bool,
}

/// The directory of the base installation below the cache root, and the
/// directory looked at by the nested check of the flat layout.
pub const INSTALL_DIR: &'static str = "GeometryDash";

/// The name of the application bundle.
pub const BUNDLE_NAME: &'static str = "GeometryDash.app";

/// The name of the executable of the flat layout.
pub const FLAT_EXECUTABLE: &'static str = "GeometryDash.exe";

/// The directory below the data root that holds one directory per server.
pub const SERVERS_DIR: &'static str = "servers";

/// The name under which a downloaded archive is kept until it is unpacked.
pub const ARCHIVE_NAME: &'static str = "temp_gd.zip";

/// Where the archive of the bundle layout is fetched from.
pub const BUNDLE_ARCHIVE_URL: &'static str = "https://cdn.rigby.host/GeometryDash.app.zip";

/// Where the archive of the flat layout is fetched from.
pub const FLAT_ARCHIVE_URL: &'static str = "https://cdn.rigby.host/GeometryDash.zip";

/// The names of a path, each as text.
pub open spec fn names(path: Seq<String>) -> Seq<Seq<char>> {
    path.map_values(|name: String| name@)
}

impl View for Location {
    type V = (Root, Seq<Seq<char>>);

    open spec fn view(&self) -> (Root, Seq<Seq<char>>) {
        (self.root, names(self.components@))
    }
}

/// The executable inside a bundle, relative to the bundle.
pub open spec fn bundle_executable() -> Seq<Seq<char>> {
    seq!["Contents"@, "MacOS"@, "Geometry Dash"@]
}

/// The working directory of a server, relative to the data root.
pub open spec fn server_dir_names(id: Seq<char>) -> Seq<Seq<char>> {
    seq![SERVERS_DIR@, id]
}

/// The directory that receives the copy of the base installation, relative
/// to the data root: the bundle inside the server's directory, or that
/// directory itself.
pub open spec fn staging_target_names(layout: PlatformLayout, id: Seq<char>) -> Seq<Seq<char>> {
    match layout {
        PlatformLayout::Bundle => server_dir_names(id).push(BUNDLE_NAME@),
        PlatformLayout::FlatBinary => server_dir_names(id),
    }
}

/// The staged binary that is to be patched, relative to the data root.
pub open spec fn staged_binary_names(layout: PlatformLayout, id: Seq<char>) -> Seq<Seq<char>> {
    match layout {
        PlatformLayout::Bundle => staging_target_names(layout, id) + bundle_executable(),
        PlatformLayout::FlatBinary => staging_target_names(layout, id).push(FLAT_EXECUTABLE@),
    }
}

/// What a run request starts, relative to the data root: the bundle, or the
/// executable.
pub open spec fn launch_target_names(layout: PlatformLayout, id: Seq<char>) -> Seq<Seq<char>> {
    match layout {
        PlatformLayout::Bundle => server_dir_names(id).push(BUNDLE_NAME@),
        PlatformLayout::FlatBinary => server_dir_names(id).push(FLAT_EXECUTABLE@),
    }
}

/// The archive that holds the base installation of a layout.
pub open spec fn archive_url_of(layout: PlatformLayout) -> Seq<char> {
    match layout {
        PlatformLayout::Bundle => BUNDLE_ARCHIVE_URL@,
        PlatformLayout::FlatBinary => FLAT_ARCHIVE_URL@,
    }
}

/// Appends one name to a path.
fn push_name(path: &mut Vec<String>, name: &str)
    ensures
        names(final(path)@) == names(old(path)@).push(name@),
{
    path.push(String::from_str(name));
    assert(names(path@) =~= names(old(path)@).push(name@));
}

/// The cache directory that holds the base installation and, while one is
/// being fetched, the archive.
pub fn cache_dir() -> (location: Location)
    ensures
        location@ == (Root::Cache, seq![INSTALL_DIR@]),
{
    let mut components: Vec<String> = Vec::new();
    assert(names(components@) =~= Seq::empty());
    push_name(&mut components, INSTALL_DIR);
    assert(names(components@) =~= seq![INSTALL_DIR@]);
    Location { root: Root::Cache, components }
}

/// Where a downloaded archive is kept until it is unpacked.
pub fn archive_location() -> (location: Location)
    ensures
        location@ == (Root::Cache, seq![INSTALL_DIR@, ARCHIVE_NAME@]),
{
    let mut components: Vec<String> = Vec::new();
    assert(names(components@) =~= Seq::empty());
    push_name(&mut components, INSTALL_DIR);
    push_name(&mut components, ARCHIVE_NAME);
    assert(names(components@) =~= seq![INSTALL_DIR@, ARCHIVE_NAME@]);
    Location { root: Root::Cache, components }
}

/// The executable inside the bundle of the base installation, which is
/// marked as executable after the bundle has been unpacked.
pub fn cached_bundle_binary() -> (location: Location)
    ensures
        location@ == (Root::Cache, seq![INSTALL_DIR@, BUNDLE_NAME@] + bundle_executable()),
{
    let mut components: Vec<String> = Vec::new();
    assert(names(components@) =~= Seq::empty());
    push_name(&mut components, INSTALL_DIR);
    push_name(&mut components, BUNDLE_NAME);
    push_name(&mut components, "Contents");
    push_name(&mut components, "MacOS");
    push_name(&mut components, "Geometry Dash");
    assert(names(components@) =~= seq![INSTALL_DIR@, BUNDLE_NAME@] + bundle_executable());
    Location { root: Root::Cache, components }
}

/// The remote location of the archive for a layout.
pub fn archive_url(layout: PlatformLayout) -> (url: &'static str)
    ensures
        url@ == archive_url_of(layout),
{
    match layout {
        PlatformLayout::Bundle => BUNDLE_ARCHIVE_URL,
        PlatformLayout::FlatBinary => FLAT_ARCHIVE_URL,
    }
}

/// The working directory of the server with the given id.
pub fn server_dir(id: &str) -> (location: Location)
    ensures
        location@ == (Root::Data, server_dir_names(id@)),
{
    let mut components: Vec<String> = Vec::new();
    assert(names(components@) =~= Seq::empty());
    push_name(&mut components, SERVERS_DIR);
    push_name(&mut components, id);
    assert(names(components@) =~= server_dir_names(id@));
    Location { root: Root::Data, components }
}

/// The directory below the data root that holds the servers' directories.
pub fn servers_dir() -> (location: Location)
    ensures
        location@ == (Root::Data, seq![SERVERS_DIR@]),
{
    let mut components: Vec<String> = Vec::new();
    assert(names(components@) =~= Seq::empty());
    push_name(&mut components, SERVERS_DIR);
    assert(names(components@) =~= seq![SERVERS_DIR@]);
    Location { root: Root::Data, components }
}

/// The directory that receives the copy of the base installation.
pub fn staging_target(layout: PlatformLayout, id: &str) -> (location: Location)
    ensures
        location@ == (Root::Data, staging_target_names(layout, id@)),
{
    let mut location = server_dir(id);
    match layout {
        PlatformLayout::Bundle => {
            push_name(&mut location.components, BUNDLE_NAME);
        },
        PlatformLayout::FlatBinary => {},
    }
    location
}

/// The staged binary that the patcher rewrites.
pub fn staged_binary(layout: PlatformLayout, id: &str) -> (location: Location)
    ensures
        location@ == (Root::Data, staged_binary_names(layout, id@)),
{
    let mut location = staging_target(layout, id);
    match layout {
        PlatformLayout::Bundle => {
            push_name(&mut location.components, "Contents");
            push_name(&mut location.components, "MacOS");
            push_name(&mut location.components, "Geometry Dash");
            assert(names(location.components@) =~= staged_binary_names(layout, id@));
        },
        PlatformLayout::FlatBinary => {
            push_name(&mut location.components, FLAT_EXECUTABLE);
        },
    }
    location
}

/// What a run request looks for and starts.
pub fn launch_target(layout: PlatformLayout, id: &str) -> (location: Location)
    ensures
        location@ == (Root::Data, launch_target_names(layout, id@)),
{
    let mut location = server_dir(id);
    match layout {
        PlatformLayout::Bundle => {
            push_name(&mut location.components, BUNDLE_NAME);
        },
        PlatformLayout::FlatBinary => {
            push_name(&mut location.components, FLAT_EXECUTABLE);
        },
    }
    location
}

} // verus!
