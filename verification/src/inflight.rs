//! The requests that are under way.
//!
//! Staging wipes and rebuilds a server's directory, so two requests for one
//! server id must never run at the same time; and the check, fetch and
//! unpack of an acquisition must never run twice at once on one machine.
//! This table records which server ids are taken and whether an acquisition
//! is running. Whoever orchestrates the requests owns one table, asks it
//! before a request starts, and tells it when the request has ended.

use crate::text::same_text;
use vstd::prelude::*;
use vstd::string::*;

verus! {

/// The server ids with a request under way, and whether an acquisition is
/// running.
#[derive(Debug)]
pub struct InFlight {
    ids: Vec<String>,
    acquiring: bool,
}

impl InFlight {
    #[verifier::type_invariant]
    spec fn distinct(&self) -> bool {
        forall|i: int, j: int|
            0 <= i < j < self.ids@.len() ==> (#[trigger] self.ids@[i])@ != (
            #[trigger] self.ids@[j])@
    }

    /// A request for the server `id` is under way.
    pub closed spec fn holds(&self, id: Seq<char>) -> bool {
        exists|i: int| 0 <= i < self.ids@.len() && (#[trigger] self.ids@[i])@ == id
    }

    /// An acquisition is running.
    pub closed spec fn acquiring(&self) -> bool {
        self.acquiring
    }

    /// A table with nothing under way.
    pub fn new() -> (table: InFlight)
        ensures
            forall|id: Seq<char>| !table.holds(id),
            !table.acquiring(),
    {
        InFlight { ids: Vec::new(), acquiring: false }
    }

    /// Whether a request for the server `id` is under way.
    pub fn is_held(&self, id: &str) -> (held: bool)
        ensures
            held == self.holds(id@),
    {
        self.position(id).is_some()
    }

    /// Whether an acquisition is running.
    pub fn is_acquiring(&self) -> (running: bool)
        ensures
            running == self.acquiring(),
    {
        self.acquiring
    }

    /// Where `id` stands in the table.
    fn position(&self, id: &str) -> (at: Option<usize>)
        ensures
            at is Some <==> self.holds(id@),
            at matches Some(i) ==> i < self.ids@.len() && self.ids@[i as int]@ == id@,
    {
        let mut k: usize = 0;
        while k < self.ids.len()
            invariant
                k <= self.ids@.len(),
                forall|i: int| 0 <= i < k ==> (#[trigger] self.ids@[i])@ != id@,
            decreases self.ids@.len() - k,
        {
            if same_text(self.ids[k].as_str(), id) {
                return Some(k);
            }
            k = k + 1;
        }
        None
    }

    /// Takes the server `id` for a request, unless a request for it is under
    /// way. The answer says whether the id was taken; if it was not, the
    /// request must not start.
    pub fn try_begin(&mut self, id: &str) -> (taken: bool)
        ensures
            taken == !old(self).holds(id@),
            final(self).holds(id@),
            forall|other: Seq<char>|
                other != id@ ==> (final(self).holds(other) <==> old(self).holds(other)),
            final(self).acquiring() == old(self).acquiring(),
    {
        proof {
            use_type_invariant(&*self);
        }
        match self.position(id) {
            Some(_) => false,
            None => {
                let ghost before = self.ids@;
                let mut ids: Vec<String> = Vec::new();
                std::mem::swap(&mut ids, &mut self.ids);
                ids.push(String::from_str(id));
                self.ids = ids;
                proof {
                    let after = self.ids@;
                    assert(after[before.len() as int]@ == id@);
                    assert forall|other: Seq<char>| other != id@ implies (self.holds(other)
                        <==> old(self).holds(other)) by {
                        if old(self).holds(other) {
                            let i = choose|i: int|
                                0 <= i < before.len() && (#[trigger] before[i])@ == other;
                            assert(after[i]@ == other);
                        }
                        if self.holds(other) {
                            let i = choose|i: int|
                                0 <= i < after.len() && (#[trigger] after[i])@ == other;
                            assert(before[i]@ == other);
                        }
                    }
                }
                true
            },
        }
    }

    /// Gives the server `id` back when its request has ended, however it
    /// ended.
    pub fn finish(&mut self, id: &str)
        ensures
            !final(self).holds(id@),
            forall|other: Seq<char>|
                other != id@ ==> (final(self).holds(other) <==> old(self).holds(other)),
            final(self).acquiring() == old(self).acquiring(),
    {
        proof {
            use_type_invariant(&*self);
        }
        match self.position(id) {
            None => {},
            Some(at) => {
                let ghost before = self.ids@;
                let mut ids: Vec<String> = Vec::new();
                std::mem::swap(&mut ids, &mut self.ids);
                ids.remove(at);
                self.ids = ids;
                proof {
                    let after = self.ids@;
                    assert(after =~= before.remove(at as int));
                    assert forall|i: int| 0 <= i < after.len() implies (#[trigger] after[i])@
                        != id@ by {
                        if i < at {
                            assert(after[i] == before[i]);
                        } else {
                            assert(after[i] == before[i + 1]);
                        }
                    }
                    assert forall|other: Seq<char>| other != id@ implies (self.holds(other)
                        <==> old(self).holds(other)) by {
                        if old(self).holds(other) {
                            let i = choose|i: int|
                                0 <= i < before.len() && (#[trigger] before[i])@ == other;
                            if i < at {
                                assert(after[i]@ == other);
                            } else {
                                assert(after[i - 1]@ == other);
                            }
                        }
                        if self.holds(other) {
                            let i = choose|i: int|
                                0 <= i < after.len() && (#[trigger] after[i])@ == other;
                            if i < at {
                                assert(before[i]@ == other);
                            } else {
                                assert(before[i + 1]@ == other);
                            }
                        }
                    }
                }
            },
        }
    }

    /// Takes the right to run an acquisition, unless one is running. The
    /// answer says whether it was taken.
    pub fn try_begin_acquisition(&mut self) -> (taken: bool)
        ensures
            taken == !old(self).acquiring(),
            final(self).acquiring(),
            forall|id: Seq<char>| final(self).holds(id) <==> old(self).holds(id),
    {
        proof {
            use_type_invariant(&*self);
        }
        let taken = !self.acquiring;
        self.acquiring = true;
        taken
    }

    /// Gives the right to run an acquisition back when it has completed or
    /// failed.
    pub fn finish_acquisition(&mut self)
        ensures
            !final(self).acquiring(),
            forall|id: Seq<char>| final(self).holds(id) <==> old(self).holds(id),
    {
        proof {
            use_type_invariant(&*self);
        }
        self.acquiring = false;
    }
}

} // verus!
