//! A model of what is on disk, in which the effect of staging can be stated.
//!
//! A disk is a map from places to nodes. A place is a storage root and the
//! names below it; a node is a directory, or a file with its bytes and its
//! permission bits. The three operations are those that staging is made of.

use crate::layout::Root;
use vstd::prelude::*;

verus! {

/// A storage root and the names below it.
pub type Place = (Root, Seq<Seq<char>>);

/// What a place holds.
pub enum Node {
    Directory,
    File { content: Seq<u8>, mode: nat },
}

/// What every place holds, for the places that hold anything.
pub type Disk = Map<Place, Node>;

/// `long` starts with `short`.
pub open spec fn starts_with(long: Seq<Seq<char>>, short: Seq<Seq<char>>) -> bool {
    short.len() <= long.len() && long.subrange(0, short.len() as int) == short
}

/// `place` is `dir` or lies somewhere below it.
pub open spec fn within(place: Place, dir: Place) -> bool {
    place.0 == dir.0 && starts_with(place.1, dir.1)
}

/// `place` is `dir` or one of the directories that lead to it from its
/// root.
pub open spec fn leads_to(place: Place, dir: Place) -> bool {
    place.0 == dir.0 && place.1.len() > 0 && starts_with(dir.1, place.1)
}

/// The place that `place`, which lies within `to`, is the copy of when
/// `from` is copied to `to`.
pub open spec fn counterpart(place: Place, from: Place, to: Place) -> Place {
    (from.0, from.1 + place.1.skip(to.1.len() as int))
}

/// `place` lies below `to` and has a counterpart below `from` on the disk.
pub open spec fn receives(disk: Disk, place: Place, from: Place, to: Place) -> bool {
    within(place, to) && place != to && disk.contains_key(counterpart(place, from, to))
}

/// Every place on the disk lies in a directory that is on the disk too, up
/// to the first level below the root.
pub open spec fn closed(disk: Disk) -> bool {
    forall|place: Place|
        #[trigger] disk.contains_key(place) && place.1.len() > 1 ==> disk.contains_key(
            (place.0, place.1.drop_last()),
        )
}

/// The disk after `dir` has been removed with everything below it.
pub open spec fn without(disk: Disk, dir: Place) -> Disk {
    Map::new(|place: Place| disk.contains_key(place) && !within(place, dir), |place: Place| disk[place])
}

/// The disk after `dir` has been created, with the directories that lead
/// to it where they were missing.
pub open spec fn with_directories(disk: Disk, dir: Place) -> Disk {
    Map::new(
        |place: Place| disk.contains_key(place) || leads_to(place, dir),
        |place: Place|
            if disk.contains_key(place) {
                disk[place]
            } else {
                Node::Directory
            },
    )
}

/// The disk after everything below `from` has been copied to the same
/// relative place below `to`: directories as directories, files with their
/// bytes and their permission bits. `to` itself is created where it was
/// missing.
pub open spec fn with_copy(disk: Disk, from: Place, to: Place) -> Disk {
    Map::new(
        |place: Place| disk.contains_key(place) || place == to || receives(disk, place, from, to),
        |place: Place|
            if receives(disk, place, from, to) {
                disk[counterpart(place, from, to)]
            } else if disk.contains_key(place) {
                disk[place]
            } else {
                Node::Directory
            },
    )
}

/// Starting with a sequence is transitive.
pub proof fn lemma_starts_with_chain(long: Seq<Seq<char>>, middle: Seq<Seq<char>>, short: Seq<Seq<char>>)
    requires
        starts_with(long, middle),
        starts_with(middle, short),
    ensures
        starts_with(long, short),
{
    assert(long.subrange(0, short.len() as int) =~= long.subrange(0, middle.len() as int).subrange(
        0,
        short.len() as int,
    ));
}

/// Of two sequences that a third one starts with, the longer starts with
/// the shorter.
pub proof fn lemma_starts_with_both(long: Seq<Seq<char>>, first: Seq<Seq<char>>, second: Seq<Seq<char>>)
    requires
        starts_with(long, first),
        starts_with(long, second),
        first.len() <= second.len(),
    ensures
        starts_with(second, first),
{
    assert(second.subrange(0, first.len() as int) =~= long.subrange(0, second.len() as int).subrange(
        0,
        first.len() as int,
    ));
    assert(long.subrange(0, second.len() as int).subrange(0, first.len() as int) =~= long.subrange(
        0,
        first.len() as int,
    ));
}

/// Sequences that start with each other are equal.
pub proof fn lemma_starts_with_each_other(first: Seq<Seq<char>>, second: Seq<Seq<char>>)
    requires
        starts_with(first, second),
        starts_with(second, first),
    ensures
        first == second,
{
    assert(first.subrange(0, second.len() as int) =~= first);
}

/// On a closed disk that does not hold `dir`, nothing lies below `dir`.
pub proof fn lemma_nothing_below_missing(disk: Disk, dir: Place, place: Place)
    requires
        closed(disk),
        dir.1.len() > 0,
        !disk.contains_key(dir),
        within(place, dir),
    ensures
        !disk.contains_key(place),
    decreases place.1.len(),
{
    if place.1.len() == dir.1.len() {
        assert(place.1.subrange(0, dir.1.len() as int) =~= place.1);
    } else if disk.contains_key(place) {
        let parent = (place.0, place.1.drop_last());
        assert(parent.1.subrange(0, dir.1.len() as int) =~= place.1.subrange(
            0,
            dir.1.len() as int,
        ));
        lemma_nothing_below_missing(disk, dir, parent);
    }
}

} // verus!
