//! Staging: replacing a server's directory by a fresh copy of the base
//! installation.
//!
//! Staging is always a clean replace. Whatever the directory held before,
//! from an earlier patch for another endpoint or from a copy that broke off
//! half way, is removed before anything is copied.

use crate::disk::{
    closed, counterpart, leads_to, lemma_nothing_below_missing, lemma_starts_with_both,
    lemma_starts_with_chain, lemma_starts_with_each_other, with_copy, with_directories, within,
    without, Disk, Node, Place,
};
use crate::layout::{
    names, server_dir_names, staging_target_names, Entry, Location, PlatformLayout, Root,
};
use vstd::prelude::*;

verus! {

/// One step of staging.
#[derive(Debug, Clone, Copy, PartialEq, Eq, Structural)]
pub enum StagingStep {
    /// Remove the server's directory with everything in it.
    RemoveServerDir,
    /// Create the server's directory.
    CreateServerDir,
    /// Copy the base installation into the target directory.
    CopyInstallation,
}

/// What is done for one entry of the base installation.
#[derive(Debug, Clone, Copy, PartialEq, Eq, Structural)]
pub enum CopyKind {
    /// A directory of the same name is created.
    Directory,
    /// The file is copied, and keeps its permission bits.
    File,
}

/// What is done for one entry of the base installation, and where.
#[derive(Debug, Clone, PartialEq, Eq)]
pub struct CopyAction {
    pub kind: CopyKind,
    pub to: Location,
}

/// The steps of staging, in the order in which they are taken. A directory
/// that exists is removed first.
pub open spec fn staging_steps_of(server_dir_exists: bool) -> Seq<StagingStep> {
    if server_dir_exists {
        seq![
            StagingStep::RemoveServerDir,
            StagingStep::CreateServerDir,
            StagingStep::CopyInstallation,
        ]
    } else {
        seq![StagingStep::CreateServerDir, StagingStep::CopyInstallation]
    }
}

/// What one step does to the disk, for a server's directory, the target of
/// the copy and the base installation.
pub open spec fn after_step(
    disk: Disk,
    step: StagingStep,
    base: Place,
    server_dir: Place,
    target: Place,
) -> Disk {
    match step {
        StagingStep::RemoveServerDir => without(disk, server_dir),
        StagingStep::CreateServerDir => with_directories(disk, server_dir),
        StagingStep::CopyInstallation => with_copy(disk, base, target),
    }
}

/// What a list of steps does to the disk, first step first.
pub open spec fn after_steps(
    disk: Disk,
    steps: Seq<StagingStep>,
    base: Place,
    server_dir: Place,
    target: Place,
) -> Disk
    decreases steps.len(),
{
    if steps.len() == 0 {
        disk
    } else {
        after_step(
            after_steps(disk, steps.drop_last(), base, server_dir, target),
            steps.last(),
            base,
            server_dir,
            target,
        )
    }
}

/// The disk after a staging that has run to its end: the server's directory
/// removed, created again, and the base installation copied to the target.
pub open spec fn staged(disk: Disk, base: Place, server_dir: Place, target: Place) -> Disk {
    with_copy(with_directories(without(disk, server_dir), server_dir), base, target)
}

/// The disk after the installation at `base` has been staged for the server
/// `id`.
pub open spec fn staged_for(disk: Disk, layout: PlatformLayout, id: Seq<char>, base: Place) -> Disk {
    staged(
        disk,
        base,
        (Root::Data, server_dir_names(id)),
        (Root::Data, staging_target_names(layout, id)),
    )
}

/// Where an entry of the base installation goes when the installation is
/// copied to `target`.
pub open spec fn destination(target: Place, entry: Entry) -> Place {
    (target.0, target.1 + names(entry.path@))
}

/// What is done for an entry when the installation is copied to `target`.
pub open spec fn action_for(target: Place, entry: Entry, action: CopyAction) -> bool {
    &&& action.kind == if entry.is_dir {
        CopyKind::Directory
    } else {
        CopyKind::File
    }
    &&& action.to@ == destination(target, entry)
}

/// Every entry of the listing that lies in a directory below the one that
/// was listed comes after the entry of that directory, as it does when a
/// tree is walked from its root downwards.
pub open spec fn parents_first(listing: Seq<Entry>) -> bool {
    forall|i: int|
        0 <= i < listing.len() && (#[trigger] listing[i]).path@.len() > 1 ==> exists|j: int|
            0 <= j < i && (#[trigger] listing[j]).is_dir && names(listing[j].path@) == names(
                listing[i].path@,
            ).drop_last()
}

/// The steps of staging, first step first.
pub fn staging_steps(server_dir_exists: bool) -> (steps: Vec<StagingStep>)
    ensures
        steps@ == staging_steps_of(server_dir_exists),
{
    let mut steps: Vec<StagingStep> = Vec::new();
    if server_dir_exists {
        steps.push(StagingStep::RemoveServerDir);
    }
    steps.push(StagingStep::CreateServerDir);
    steps.push(StagingStep::CopyInstallation);
    assert(steps@ =~= staging_steps_of(server_dir_exists));
    steps
}

/// What is done for one entry of the base installation: it goes to the
/// place below `target` that it has below the installation, a directory as
/// a directory and a file as a file.
pub fn copy_action(target: &Location, entry: &Entry) -> (action: CopyAction)
    ensures
        action_for(target@, *entry, action),
{
    let mut components: Vec<String> = Vec::new();
    let mut k: usize = 0;
    while k < target.components.len()
        invariant
            k <= target.components@.len(),
            components@.len() == k,
            forall|i: int| 0 <= i < k ==> (#[trigger] components@[i])@ == target.components@[i]@,
        decreases target.components@.len() - k,
    {
        components.push(target.components[k].clone());
        k = k + 1;
    }
    let depth: usize = components.len();
    let mut j: usize = 0;
    while j < entry.path.len()
        invariant
            j <= entry.path@.len(),
            depth == target.components@.len(),
            components@.len() == depth + j,
            forall|i: int| 0 <= i < depth ==> (#[trigger] components@[i])@ == target.components@[i]@,
            forall|i: int| 0 <= i < j ==> (#[trigger] components@[depth + i])@ == entry.path@[i]@,
        decreases entry.path@.len() - j,
    {
        components.push(entry.path[j].clone());
        j = j + 1;
    }
    assert(names(components@) =~= target@.1 + names(entry.path@)) by {
        let joined = target@.1 + names(entry.path@);
        assert(names(components@).len() == joined.len());
        assert forall|i: int| 0 <= i < joined.len() implies names(components@)[i] == joined[i] by {
            if i >= depth {
                assert(components@[depth + (i - depth)]@ == entry.path@[i - depth]@);
            }
        }
    }
    let kind = if entry.is_dir {
        CopyKind::Directory
    } else {
        CopyKind::File
    };
    CopyAction { kind, to: Location { root: target.root, components } }
}

/// What is done for the entries of the base installation, one action for
/// each entry, in the order of the listing.
pub fn copy_plan(target: &Location, listing: &Vec<Entry>) -> (plan: Vec<CopyAction>)
    ensures
        plan@.len() == listing@.len(),
        forall|i: int| 0 <= i < plan@.len() ==> action_for(target@, listing@[i], #[trigger] plan@[i]),
{
    let mut plan: Vec<CopyAction> = Vec::new();
    let mut k: usize = 0;
    while k < listing.len()
        invariant
            k <= listing@.len(),
            plan@.len() == k,
            forall|i: int| 0 <= i < k ==> action_for(target@, listing@[i], #[trigger] plan@[i]),
        decreases listing@.len() - k,
    {
        plan.push(copy_action(target, &listing[k]));
        k = k + 1;
    }
    plan
}

/// Directories are created before what they hold. In a listing that names
/// every directory before its entries, the directory that an entry is
/// copied into is the target itself, or the destination of a directory that
/// stands earlier in the listing.
pub proof fn lemma_directories_first(target: Place, listing: Seq<Entry>, i: int)
    requires
        parents_first(listing),
        0 <= i < listing.len(),
        listing[i].path@.len() > 0,
    ensures
        destination(target, listing[i]).1.drop_last() == target.1 || exists|j: int|
            0 <= j < i && (#[trigger] listing[j]).is_dir && destination(target, listing[j]).1
                == destination(target, listing[i]).1.drop_last(),
{
    let path = names(listing[i].path@);
    if path.len() == 1 {
        assert((target.1 + path).drop_last() =~= target.1);
    } else {
        let j = choose|j: int|
            0 <= j < i && (#[trigger] listing[j]).is_dir && names(listing[j].path@) == names(
                listing[i].path@,
            ).drop_last();
        assert((target.1 + path).drop_last() =~= target.1 + path.drop_last());
    }
}

/// The steps amount to a staging: on a disk where every entry lies in a
/// directory that exists, taking the steps chosen for whether the server's
/// directory exists gives the staged disk.
pub proof fn lemma_steps_stage(disk: Disk, base: Place, server_dir: Place, target: Place)
    requires
        closed(disk),
        server_dir.1.len() > 0,
    ensures
        after_steps(
            disk,
            staging_steps_of(disk.contains_key(server_dir)),
            base,
            server_dir,
            target,
        ) == staged(disk, base, server_dir, target),
{
    let steps = staging_steps_of(disk.contains_key(server_dir));
    reveal_with_fuel(after_steps, 4);
    if disk.contains_key(server_dir) {
        assert(steps.drop_last() =~= seq![
            StagingStep::RemoveServerDir,
            StagingStep::CreateServerDir,
        ]);
        assert(steps.drop_last().drop_last() =~= seq![StagingStep::RemoveServerDir]);
        assert(steps.drop_last().drop_last().drop_last() =~= Seq::<StagingStep>::empty());
    } else {
        assert(steps.drop_last() =~= seq![StagingStep::CreateServerDir]);
        assert(steps.drop_last().drop_last() =~= Seq::<StagingStep>::empty());
        assert(without(disk, server_dir) =~= disk) by {
            assert forall|place: Place| disk.contains_key(place) implies !within(
                place,
                server_dir,
            ) by {
                if within(place, server_dir) {
                    lemma_nothing_below_missing(disk, server_dir, place);
                }
            }
        }
    }
}

/// Staging forgets what the server's directory held: two disks that agree
/// everywhere outside that directory are the same after staging.
pub proof fn lemma_staging_forgets(
    first: Disk,
    second: Disk,
    base: Place,
    server_dir: Place,
    target: Place,
)
    requires
        forall|place: Place|
            !within(place, server_dir) ==> (first.contains_key(place) <==> second.contains_key(
                place,
            )),
        forall|place: Place|
            !within(place, server_dir) && first.contains_key(place) ==> first[place]
                == second[place],
    ensures
        staged(first, base, server_dir, target) == staged(second, base, server_dir, target),
{
    assert(without(first, server_dir) =~= without(second, server_dir));
}

/// Staging twice in a row gives what staging once gives.
pub proof fn lemma_staging_idempotent(disk: Disk, base: Place, server_dir: Place, target: Place)
    requires
        within(target, server_dir),
    ensures
        staged(staged(disk, base, server_dir, target), base, server_dir, target) == staged(
            disk,
            base,
            server_dir,
            target,
        ),
{
    let created = with_directories(without(disk, server_dir), server_dir);
    let once = staged(disk, base, server_dir, target);
    let created_again = with_directories(without(once, server_dir), server_dir);
    assert forall|place: Place| within(place, target) implies within(place, server_dir) by {
        lemma_starts_with_chain(place.1, target.1, server_dir.1);
    }
    assert(created_again =~= created) by {
        assert forall|place: Place| created_again.contains_key(place) implies created.contains_key(
            place,
        ) && created_again[place] == created[place] by {}
        assert forall|place: Place| created.contains_key(place) implies created_again.contains_key(
            place,
        ) by {
            if within(place, server_dir) {
                assert(leads_to(place, server_dir));
            }
        }
    }
}

/// After staging, the target holds a copy of the base installation and the
/// server's directory holds nothing else. Below the target there is exactly
/// what there was below the base installation, each entry as it was there;
/// whatever else the server's directory holds is that directory itself or
/// the target. This holds where neither of the base installation and the
/// server's directory lies within the other.
pub proof fn lemma_staged_is_fresh_copy(disk: Disk, base: Place, server_dir: Place, target: Place)
    requires
        within(target, server_dir),
        server_dir.1.len() > 0,
        !within(base, server_dir),
        !within(server_dir, base),
    ensures
        forall|place: Place|
            within(place, target) && place != target ==> (#[trigger] staged(
                disk,
                base,
                server_dir,
                target,
            ).contains_key(place) <==> disk.contains_key(counterpart(place, base, target))),
        forall|place: Place|
            within(place, target) && place != target && #[trigger] staged(
                disk,
                base,
                server_dir,
                target,
            ).contains_key(place) ==> staged(disk, base, server_dir, target)[place]
                == disk[counterpart(place, base, target)],
        forall|place: Place|
            within(place, server_dir) && #[trigger] staged(
                disk,
                base,
                server_dir,
                target,
            ).contains_key(place) ==> place == server_dir || within(place, target),
        staged(disk, base, server_dir, target).contains_key(server_dir),
        staged(disk, base, server_dir, target)[server_dir] == Node::Directory,
        staged(disk, base, server_dir, target).contains_key(target),
        staged(disk, base, server_dir, target)[target] == Node::Directory,
{
    let emptied = without(disk, server_dir);
    let created = with_directories(emptied, server_dir);
    let after = staged(disk, base, server_dir, target);
    assert(server_dir.1.subrange(0, server_dir.1.len() as int) =~= server_dir.1);
    assert(target.1.subrange(0, target.1.len() as int) =~= target.1);
    assert(within(server_dir, server_dir));
    assert(leads_to(server_dir, server_dir));
    // A place within the server's directory that was created is that directory.
    assert forall|place: Place|
        within(place, server_dir) && created.contains_key(place) implies place
        == server_dir by {
        lemma_starts_with_each_other(place.1, server_dir.1);
    }
    // A place below the base installation is on the created disk as it was on the
    // disk at the start.
    assert forall|place: Place| within(place, base) implies (created.contains_key(place)
        <==> disk.contains_key(place)) && (created.contains_key(place) ==> created[place]
        == disk[place]) by {
        if within(place, server_dir) {
            if base.1.len() <= server_dir.1.len() {
                lemma_starts_with_both(place.1, base.1, server_dir.1);
            } else {
                lemma_starts_with_both(place.1, server_dir.1, base.1);
            }
        }
        if leads_to(place, server_dir) {
            lemma_starts_with_chain(server_dir.1, place.1, base.1);
        }
    }
    assert forall|place: Place| within(place, target) implies within(place, server_dir) by {
        lemma_starts_with_chain(place.1, target.1, server_dir.1);
    }
    assert forall|place: Place| within(place, target) implies within(
        counterpart(place, base, target),
        base,
    ) by {
        let twin = counterpart(place, base, target);
        assert(twin.1.subrange(0, base.1.len() as int) =~= base.1);
    }
    assert forall|place: Place| within(place, target) && place != target implies (
    #[trigger] after.contains_key(place) <==> disk.contains_key(counterpart(place, base, target)))
        && (after.contains_key(place) ==> after[place] == disk[counterpart(
        place,
        base,
        target,
    )]) by {
        let twin = counterpart(place, base, target);
        assert(within(twin, base));
        assert(within(place, server_dir));
        if created.contains_key(place) {
            assert(place == server_dir);
            lemma_starts_with_each_other(target.1, server_dir.1);
        }
    }
    assert forall|place: Place|
        within(place, server_dir) && #[trigger] after.contains_key(place) implies place
        == server_dir || within(place, target) by {}
    if created.contains_key(target) {
        assert(target == server_dir);
    }
}

/// In both layouts the target of the copy lies within the server's
/// directory.
pub proof fn lemma_target_in_server_dir(layout: PlatformLayout, id: Seq<char>)
    ensures
        within(
            (Root::Data, staging_target_names(layout, id)),
            (Root::Data, server_dir_names(id)),
        ),
        server_dir_names(id).len() > 0,
{
    let target = staging_target_names(layout, id);
    assert(target.subrange(0, server_dir_names(id).len() as int) =~= server_dir_names(id));
}

/// Staging a server twice in a row leaves the disk as staging it once does.
pub proof fn lemma_restaging_changes_nothing(
    disk: Disk,
    layout: PlatformLayout,
    id: Seq<char>,
    base: Place,
)
    ensures
        staged_for(staged_for(disk, layout, id, base), layout, id, base) == staged_for(
            disk,
            layout,
            id,
            base,
        ),
{
    lemma_target_in_server_dir(layout, id);
    lemma_staging_idempotent(
        disk,
        base,
        (Root::Data, server_dir_names(id)),
        (Root::Data, staging_target_names(layout, id)),
    );
}

/// What a server's directory held before, patched or half copied, makes no
/// difference to what staging leaves: disks that differ only within that
/// directory are the same after staging.
pub proof fn lemma_history_forgotten(
    first: Disk,
    second: Disk,
    layout: PlatformLayout,
    id: Seq<char>,
    base: Place,
)
    requires
        forall|place: Place|
            !within(place, (Root::Data, server_dir_names(id))) ==> (first.contains_key(place)
                <==> second.contains_key(place)),
        forall|place: Place|
            !within(place, (Root::Data, server_dir_names(id))) && first.contains_key(place)
                ==> first[place] == second[place],
    ensures
        staged_for(first, layout, id, base) == staged_for(second, layout, id, base),
{
    lemma_staging_forgets(
        first,
        second,
        base,
        (Root::Data, server_dir_names(id)),
        (Root::Data, staging_target_names(layout, id)),
    );
}

/// After a server has been staged from a base installation in the cache,
/// every entry below the target is the entry that the base installation has
/// at the same relative place, and the base installation has no entry that
/// is missing below the target.
pub proof fn lemma_staged_from_cache(
    disk: Disk,
    layout: PlatformLayout,
    id: Seq<char>,
    base: Place,
)
    requires
        base.0 == Root::Cache,
    ensures
        forall|place: Place|
            within(place, (Root::Data, staging_target_names(layout, id))) && place != (
                Root::Data,
                staging_target_names(layout, id),
            ) ==> (#[trigger] staged_for(disk, layout, id, base).contains_key(place)
                <==> disk.contains_key(
                counterpart(place, base, (Root::Data, staging_target_names(layout, id))),
            )),
        forall|place: Place|
            within(place, (Root::Data, staging_target_names(layout, id))) && place != (
                Root::Data,
                staging_target_names(layout, id),
            ) && #[trigger] staged_for(disk, layout, id, base).contains_key(place) ==> staged_for(
                disk,
                layout,
                id,
                base,
            )[place] == disk[counterpart(
                place,
                base,
                (Root::Data, staging_target_names(layout, id)),
            )],
        forall|place: Place|
            within(place, (Root::Data, server_dir_names(id))) && #[trigger] staged_for(
                disk,
                layout,
                id,
                base,
            ).contains_key(place) ==> place == (Root::Data, server_dir_names(id)) || within(
                place,
                (Root::Data, staging_target_names(layout, id)),
            ),
{
    lemma_target_in_server_dir(layout, id);
    lemma_staged_is_fresh_copy(
        disk,
        base,
        (Root::Data, server_dir_names(id)),
        (Root::Data, staging_target_names(layout, id)),
    );
}

} // verus!
