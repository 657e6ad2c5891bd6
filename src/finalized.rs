//! Following the relay chain's finalized parachain heads.
use vstd::prelude::*;
use crate::hash::BlockHash;
use crate::header::{Header, decode_header, decodes, header_of};

verus! {

/// What to do with a finalized head handed over by the relay chain.
#[derive(Clone, Debug)]
pub enum FinalizeStep {
    /// The head does not decode: skip it.
    Undecodable,
    /// The head is the block the client has already finalized.
    AlreadyFinalized,
    /// Ask the client to finalize this block.
    Finalize(Header),
}

/// The step for a decoded head `head`, when the client's finalized block is `finalized`.
pub open spec fn finalize_step(head: Header, finalized: BlockHash) -> FinalizeStep {
    if head.hash@ == finalized@ {
        FinalizeStep::AlreadyFinalized
    } else {
        FinalizeStep::Finalize(head)
    }
}

/// Decides what to do with the finalized head `head` (an encoded header), when the
/// client's finalized block is `finalized_hash`.
pub fn follow_finalized_head(head: &[u8], finalized_hash: &BlockHash) -> (r: FinalizeStep)
    ensures
        r is Undecodable <==> !decodes(head@),
        r is AlreadyFinalized ==> decodes(head@),
        r matches FinalizeStep::Finalize(h) ==> header_of(h, head@) && h.hash@ != finalized_hash@,
        forall|h: Header| header_of(h, head@) ==> (r is AlreadyFinalized <==> h.hash@ == finalized_hash@),
{
    match decode_header(head) {
        None => FinalizeStep::Undecodable,
        Some(header) => {
            if header.hash.same_as(finalized_hash) {
                FinalizeStep::AlreadyFinalized
            } else {
                FinalizeStep::Finalize(header)
            }
        },
    }
}

/// A head that was finalized, and that the relay chain hands over again, is not
/// finalized a second time: once the client reports the block as finalized, the
/// same hash is skipped.
pub proof fn lemma_finalize_not_repeated(first: Header, again: Header, before: BlockHash, after: BlockHash)
    requires
        finalize_step(first, before) is Finalize,
        after@ == first.hash@,
        again.hash@ == first.hash@,
    ensures
        finalize_step(again, after) is AlreadyFinalized,
{
}

/// Why the client could not finalize a block.
#[derive(Clone, Copy, Debug, PartialEq, Eq, Structural)]
pub enum FinalizeError {
    /// The block is not known yet: the relay chain finalized it before it was imported.
    UnknownBlock,
    /// Any other failure of the client.
    Other,
}

} // verus!
