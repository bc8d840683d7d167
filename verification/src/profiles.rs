//! The server profiles that exist: one per directory below the servers
//! directory.

use crate::layout::names;
use vstd::prelude::*;

verus! {

/// One entry directly below the servers directory.
#[derive(Debug, Clone, PartialEq, Eq)]
pub struct Child {
    /// The name of the entry, where it can be written as text.
    pub name: Option<String>,
    /// Whether the entry is a directory.
    pub is_dir: bool,
}

/// The entry stands for a server profile: it is a directory whose name can
/// be written as text.
pub open spec fn is_profile(child: Child) -> bool {
    child.is_dir && child.name is Some
}

/// The ids of the server profiles among the entries, in the order of the
/// entries.
pub open spec fn profiles_of(children: Seq<Child>) -> Seq<Seq<char>>
    decreases children.len(),
{
    if children.len() == 0 {
        Seq::empty()
    } else if is_profile(children.last()) {
        profiles_of(children.drop_last()).push(children.last().name->Some_0@)
    } else {
        profiles_of(children.drop_last())
    }
}

/// Lists the server ids for which something is staged, from the entries
/// directly below the servers directory. Where that directory does not
/// exist there are no entries, and no profiles.
pub fn profile_ids(children: &Vec<Child>) -> (ids: Vec<String>)
    ensures
        names(ids@) == profiles_of(children@),
{
    let mut ids: Vec<String> = Vec::new();
    let mut k: usize = 0;
    assert(names(ids@) =~= profiles_of(children@.subrange(0, 0)));
    while k < children.len()
        invariant
            k <= children@.len(),
            names(ids@) == profiles_of(children@.subrange(0, k as int)),
        decreases children@.len() - k,
    {
        let child = &children[k];
        let ghost before = ids@;
        assert(children@.subrange(0, k + 1).drop_last() =~= children@.subrange(0, k as int));
        assert(children@.subrange(0, k + 1).last() == children@[k as int]);
        if child.is_dir {
            match &child.name {
                Some(name) => {
                    ids.push(name.clone());
                    assert(names(ids@) =~= names(before).push(name@));
                },
                None => {},
            }
        }
        k = k + 1;
    }
    assert(children@.subrange(0, children@.len() as int) =~= children@);
    ids
}

} // verus!
