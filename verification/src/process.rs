//! The block intake router: the single point that serialises application
//! of inbound blocks to the chain and decides which blocks are
//! rebroadcast to the network.
//!
//! The router's decisions are pure; the caller owns the outside work. For
//! each message it first applies the block named by `block_to_apply`
//! under the chain write permission, then hands the message and the apply
//! outcome to `process`, and broadcasts whatever block comes back.

use vstd::prelude::*;
use crate::blockcfg::Block;

verus! {

/// A message on the block intake channel, tagged with its origin: the tag
/// decides whether the block is rebroadcast after it is applied.
#[derive(Clone, Debug, PartialEq, Eq)]
pub enum BlockMsg {
    /// A block received from a peer; applied, never rebroadcast.
    NetworkBlock(Block),
    /// A block produced by the local leadership path; applied, then
    /// announced to the network — but only if the apply succeeded.
    LeadershipBlock(Block),
}

/// The block a message carries, in ghost form.
pub open spec fn msg_block(msg: BlockMsg) -> Block {
    match msg {
        BlockMsg::NetworkBlock(b) => b,
        BlockMsg::LeadershipBlock(b) => b,
    }
}

/// Whether a message originated from the local leadership path.
pub open spec fn is_leadership(msg: BlockMsg) -> bool {
    msg is LeadershipBlock
}

/// The block to apply to the chain: every intake message's block is
/// applied, whatever its origin.
pub fn block_to_apply(msg: &BlockMsg) -> (b: &Block)
    ensures
        *b == msg_block(*msg),
{
    match msg {
        BlockMsg::NetworkBlock(b) => b,
        BlockMsg::LeadershipBlock(b) => b,
    }
}

/// Routes one intake message after its block was applied: a
/// locally-produced block whose apply succeeded is surrendered for
/// broadcast; a network block, or a block whose apply failed, is not —
/// the node never advertises a block it has not committed.
pub fn process(msg: BlockMsg, apply_ok: bool) -> (r: Option<Block>)
    ensures
        r is Some <==> is_leadership(msg) && apply_ok,
        r matches Some(b) ==> b == msg_block(msg),
{
    match msg {
        BlockMsg::NetworkBlock(_) => None,
        BlockMsg::LeadershipBlock(block) => {
            if apply_ok {
                Some(block)
            } else {
                None
            }
        }
    }
}

} // verus!
