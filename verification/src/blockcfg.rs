//! Plain-value models of the chain data the core moves around: headers,
//! blocks, messages, block dates, and the ledger as the selection engine
//! sees it (a validation verdict per fragment).

use vstd::prelude::*;
use crate::fragment::{Fragment, FragmentId};

verus! {

/// A block date: epoch and slot within the epoch.
#[derive(Clone, Copy, Debug, PartialEq, Eq, Structural)]
pub struct BlockDate {
    pub epoch: u32,
    pub slot_id: u32,
}

/// Identifier of a block header (a content hash, held as a plain value).
#[derive(Clone, Copy, Debug, PartialEq, Eq, Hash, Structural)]
pub struct HeaderHash(pub u64);

/// A block header: what announcement streams carry.
#[derive(Clone, Copy, Debug, PartialEq, Eq, Structural)]
pub struct Header {
    pub hash: HeaderHash,
    pub date: BlockDate,
}

/// A block: a header plus the fragments committed by it.
#[derive(Clone, Debug, PartialEq, Eq)]
pub struct Block {
    pub header: Header,
    pub fragments: Vec<Fragment>,
}

/// A mempool-bound message: what the fragment topic streams carry.
#[derive(Clone, Copy, Debug, PartialEq, Eq, Structural)]
pub struct Message(pub u64);

/// Accumulates the body of a block under construction.
pub struct BlockBuilder {
    messages: Vec<Fragment>,
}

impl View for BlockBuilder {
    type V = Seq<Fragment>;

    closed spec fn view(&self) -> Seq<Fragment> {
        self.messages@
    }
}

impl BlockBuilder {
    pub fn new() -> (b: BlockBuilder)
        ensures
            b@ == Seq::<Fragment>::empty(),
    {
        BlockBuilder { messages: Vec::new() }
    }

    /// Appends one fragment to the block body.
    pub fn message(&mut self, fragment: Fragment)
        ensures
            final(self)@ == old(self)@.push(fragment),
    {
        self.messages.push(fragment);
    }

    /// The fragments accumulated so far, oldest first.
    pub fn fragments(&self) -> (v: &Vec<Fragment>)
        ensures
            v@ == self@,
    {
        &self.messages
    }
}

/// Ledger parameters in force while a block body is assembled.
#[derive(Clone, Copy, Debug, PartialEq, Eq, Structural)]
pub struct LedgerParameters {
    pub allow_account_creation: bool,
}

/// Evaluation context for the header of the block under construction.
#[derive(Clone, Copy, Debug, PartialEq, Eq, Structural)]
pub struct HeaderContentEvalContext {
    pub block_date: BlockDate,
}

/// Why the ledger refused a fragment.
#[derive(Clone, Debug, PartialEq, Eq)]
pub struct LedgerError {
    message: String,
}

impl View for LedgerError {
    type V = Seq<char>;

    closed spec fn view(&self) -> Seq<char> {
        self.message@
    }
}

impl LedgerError {
    pub fn new(message: String) -> (e: LedgerError)
        ensures
            e@ == message@,
    {
        LedgerError { message }
    }

    /// Surrenders the rejection reason for the status log.
    pub fn into_message(self) -> (s: String)
        ensures
            s@ == self@,
    {
        self.message
    }
}

/// The ledger as the selection engine consumes it: a validation verdict
/// per fragment, deterministic for a given fragment within one process.
/// A fragment listed here is refused with the recorded reason; any other
/// fragment is accepted.
pub struct Ledger {
    rejects: Vec<(FragmentId, String)>,
}

impl View for Ledger {
    type V = Map<FragmentId, Seq<char>>;

    closed spec fn view(&self) -> Map<FragmentId, Seq<char>> {
        Ledger::verdicts(self.rejects@)
    }
}

impl Ledger {
    /// The rejection table as a map; a later entry for the same fragment
    /// supersedes an earlier one.
    pub closed spec fn verdicts(entries: Seq<(FragmentId, String)>) -> Map<FragmentId, Seq<char>>
        decreases entries.len(),
    {
        if entries.len() == 0 {
            Map::empty()
        } else {
            Ledger::verdicts(entries.drop_last()).insert(entries.last().0, entries.last().1@)
        }
    }

    /// A ledger that accepts every fragment.
    pub fn new() -> (l: Ledger)
        ensures
            l@ == Map::<FragmentId, Seq<char>>::empty(),
    {
        Ledger { rejects: Vec::new() }
    }

    /// Records that `id` is to be refused with `reason`.
    pub fn reject(&mut self, id: FragmentId, reason: String)
        ensures
            final(self)@ == old(self)@.insert(id, reason@),
    {
        let ghost r = reason@;
        self.rejects.push((id, reason));
        proof {
            assert(self.rejects@.drop_last() =~= old(self).rejects@);
            assert(self.rejects@.last().1@ == r);
        }
    }

    /// Validates one fragment against the ledger state: the outcome is the
    /// recorded verdict, an error exactly for a fragment listed as refused.
    pub fn apply_fragment(
        &self,
        _params: &LedgerParameters,
        fragment: &Fragment,
        _metadata: &HeaderContentEvalContext,
    ) -> (r: Result<(), LedgerError>)
        ensures
            r is Ok <==> !self@.contains_key(fragment.id),
            r matches Err(e) ==> self@.contains_key(fragment.id) && e@ == self@[fragment.id],
    {
        let id = fragment.id;
        let mut j: usize = self.rejects.len();
        assert(self.rejects@.take(j as int) =~= self.rejects@);
        while j > 0
            invariant
                id == fragment.id,
                j <= self.rejects.len(),
                self@ == Ledger::verdicts(self.rejects@),
                self@.contains_key(id) == Ledger::verdicts(self.rejects@.take(j as int)).contains_key(id),
                self@.contains_key(id)
                    ==> Ledger::verdicts(self.rejects@.take(j as int)).contains_key(id)
                        && Ledger::verdicts(self.rejects@.take(j as int))[id] == self@[id],
            decreases j,
        {
            j = j - 1;
            proof {
                assert(self.rejects@.take(j + 1).drop_last() =~= self.rejects@.take(j as int));
                assert(self.rejects@.take(j + 1).last() == self.rejects@[j as int]);
                assert(Ledger::verdicts(self.rejects@.take(j + 1))
                    == Ledger::verdicts(self.rejects@.take(j as int))
                        .insert(self.rejects@[j as int].0, self.rejects@[j as int].1@));
            }
            if self.rejects[j].0 == id {
                proof {
                    assert(self.rejects@[j as int].0 == id);
                    assert(Ledger::verdicts(self.rejects@.take(j + 1)).contains_key(id));
                    assert(Ledger::verdicts(self.rejects@.take(j + 1))[id]
                        == self.rejects@[j as int].1@);
                    assert(self@.contains_key(id));
                    assert(self@[id] == self.rejects@[j as int].1@);
                }
                let reason = self.rejects[j].1.clone();
                return Err(LedgerError { message: reason });
            }
        }
        assert(self.rejects@.take(0) =~= Seq::<(FragmentId, String)>::empty());
        Ok(())
    }
}

} // verus!
