//! A patch request: what has to be done for it, in which order, and what a
//! failure of each step means.
//!
//! The steps themselves touch the network and the file system and are
//! carried out by the caller. What is decided here is whether a request may
//! start at all, which steps it takes, and how the binary is rewritten once
//! it has been read.

use crate::encoding::base64_standard;
use crate::endpoint::{
    endpoint_bytes, endpoint_for, endpoint_text, fits_slot, original_endpoint, SLOT_WIDTH,
};
use crate::error::PatchError;
use crate::layout::PlatformLayout;
use crate::patcher::{
    lemma_plain_text_spares_slots, lemma_server_payload_is_clear, patch_buffer, patched,
    plain_text, redirected_but_last, slot_payload,
};
use crate::search::occurrences;
use vstd::prelude::*;
use vstd::string::*;
use vstd::utf8::*;

verus! {

/// One step of a patch request.
#[derive(Debug, Clone, Copy, PartialEq, Eq, Structural)]
pub enum PatchStep {
    /// Make sure that the base installation is in the cache.
    Acquire,
    /// Replace the server's directory by a fresh copy of the base
    /// installation.
    Stage,
    /// Read the staged binary into memory. Between this step and the next
    /// the binary is rewritten in memory, which touches nothing outside and
    /// cannot fail.
    ReadBinary,
    /// Write the rewritten binary back over the staged one.
    WriteBinary,
    /// Sign the patched bundle again.
    Resign,
}

/// The steps of a patch request, in the order in which they are taken. Only
/// a bundle is signed.
pub open spec fn patch_steps(layout: PlatformLayout) -> Seq<PatchStep> {
    match layout {
        PlatformLayout::Bundle => seq![
            PatchStep::Acquire,
            PatchStep::Stage,
            PatchStep::ReadBinary,
            PatchStep::WriteBinary,
            PatchStep::Resign,
        ],
        PlatformLayout::FlatBinary => seq![
            PatchStep::Acquire,
            PatchStep::Stage,
            PatchStep::ReadBinary,
            PatchStep::WriteBinary,
        ],
    }
}

/// The error that a request ends with when `step` has failed.
pub open spec fn failure_of(step: PatchStep, detail: String) -> PatchError {
    match step {
        PatchStep::Acquire => PatchError::Acquisition { detail },
        PatchStep::Stage => PatchError::Staging { detail },
        PatchStep::ReadBinary => PatchError::Io { detail },
        PatchStep::WriteBinary => PatchError::Io { detail },
        PatchStep::Resign => PatchError::Signing { detail },
    }
}

/// A patch request whose endpoint is known to fit the slot.
#[derive(Debug)]
pub struct PatchJob {
    id: String,
    layout: PlatformLayout,
    endpoint: String,
}

impl PatchJob {
    #[verifier::type_invariant]
    spec fn valid(&self) -> bool {
        &&& self.endpoint@ == endpoint_text(self.id@)
        &&& fits_slot(endpoint_bytes(self.id@).len())
    }

    /// The id of the server that the request is for.
    pub closed spec fn id(&self) -> Seq<char> {
        self.id@
    }

    /// The layout of the platform that the request runs on.
    pub closed spec fn layout(&self) -> PlatformLayout {
        self.layout
    }

    /// Accepts a request, or refuses it before anything has been fetched,
    /// copied or written: the endpoint is derived from the server id, and a
    /// request whose endpoint is longer than the slot ends here with
    /// `PayloadTooLarge`.
    pub fn new(id: &str, layout: PlatformLayout) -> (outcome: Result<PatchJob, PatchError>)
        ensures
            outcome is Ok <==> fits_slot(endpoint_bytes(id@).len()),
            outcome matches Ok(job) ==> job.id() == id@ && job.layout() == layout,
            outcome matches Err(error) ==> error == (PatchError::PayloadTooLarge {
                max: SLOT_WIDTH,
                got: endpoint_bytes(id@).len() as usize,
            }),
    {
        let endpoint = endpoint_for(id);
        let got: usize = endpoint.as_str().as_bytes().len();
        if got > SLOT_WIDTH {
            Err(PatchError::PayloadTooLarge { max: SLOT_WIDTH, got })
        } else {
            Ok(PatchJob { id: String::from_str(id), layout, endpoint })
        }
    }

    /// The id of the server, which a finished request answers with.
    pub fn server_id(&self) -> (id: String)
        ensures
            id@ == self.id(),
    {
        self.id.clone()
    }

    /// The layout of the platform.
    pub fn platform(&self) -> (layout: PlatformLayout)
        ensures
            layout == self.layout(),
    {
        self.layout
    }

    /// The steps that the request takes, first step first.
    pub fn steps(&self) -> (steps: Vec<PatchStep>)
        ensures
            steps@ == patch_steps(self.layout()),
    {
        patch_plan(self.layout)
    }

    /// Rewrites the binary, once it has been read into `data`, for the
    /// server of this request. This cannot fail: the endpoint was checked
    /// when the request was accepted.
    ///
    /// Where the base64 text of the original endpoint is plain text, the
    /// all-but-last rule can be read off the result: of two or more
    /// occurrences of the original endpoint, every one but the last then
    /// holds the zero-padded endpoint of the server, and the last one the
    /// original endpoint.
    pub fn patch(&self, data: &mut Vec<u8>)
        ensures
            final(data)@ == patched(old(data)@, endpoint_bytes(self.id())),
            final(data)@.len() == old(data)@.len(),
            plain_text(base64_standard(original_endpoint())) && occurrences(
                old(data)@,
                original_endpoint(),
            ).len() >= 2 ==> redirected_but_last(
                old(data)@,
                final(data)@,
                slot_payload(endpoint_bytes(self.id())),
            ),
    {
        proof {
            use_type_invariant(self);
        }
        let outcome = patch_buffer(data, self.endpoint.as_str());
        assert(outcome is Ok);
        proof {
            if plain_text(base64_standard(original_endpoint())) && occurrences(
                old(data)@,
                original_endpoint(),
            ).len() >= 2 {
                lemma_server_payload_is_clear(self.id());
                lemma_plain_text_spares_slots(
                    old(data)@,
                    slot_payload(endpoint_bytes(self.id())),
                    base64_standard(original_endpoint()),
                    base64_standard(slot_payload(endpoint_bytes(self.id()))),
                );
            }
        }
    }
}

/// The steps of a patch request on a platform, first step first.
pub fn patch_plan(layout: PlatformLayout) -> (steps: Vec<PatchStep>)
    ensures
        steps@ == patch_steps(layout),
{
    let mut steps: Vec<PatchStep> = Vec::new();
    steps.push(PatchStep::Acquire);
    steps.push(PatchStep::Stage);
    steps.push(PatchStep::ReadBinary);
    steps.push(PatchStep::WriteBinary);
    match layout {
        PlatformLayout::Bundle => {
            steps.push(PatchStep::Resign);
        },
        PlatformLayout::FlatBinary => {},
    }
    assert(steps@ =~= patch_steps(layout));
    steps
}

/// The error that ends a request when `step` has failed; `detail` is the
/// account that the failed operation gave. Nothing is retried.
pub fn failure(step: PatchStep, detail: String) -> (error: PatchError)
    ensures
        error == failure_of(step, detail),
{
    match step {
        PatchStep::Acquire => PatchError::Acquisition { detail },
        PatchStep::Stage => PatchError::Staging { detail },
        PatchStep::ReadBinary => PatchError::Io { detail },
        PatchStep::WriteBinary => PatchError::Io { detail },
        PatchStep::Resign => PatchError::Signing { detail },
    }
}

} // verus!
