//! The fragment selection engine: a pluggable strategy that drains the
//! mempool under ledger validation and accumulates a block body, updating
//! the per-fragment status log as it goes.

use vstd::prelude::*;
use crate::blockcfg::{BlockBuilder, HeaderContentEvalContext, Ledger, LedgerParameters, BlockDate};
use crate::fragment::{Fragment, FragmentId, Logs, Pool, Status, StatusV};

verus! {

/// Feedback a selection strategy may report per fragment. The oldest-first
/// strategy reports nothing; richer strategies (fee-sorted, size-adaptive)
/// use these variants to ask the submitter for an adjusted fragment.
pub enum SelectionOutput {
    Commit { fragment_id: FragmentId },
    RequestSmallerFee,
    RequestSmallerSize,
    Reject { reason: String },
}

/// The effect of one oldest-first selection pass: which fragments were
/// accepted (in drain order), the status written for every drained
/// fragment (in drain order), and how many fragments were drained.
pub ghost struct SelectionEffect {
    pub accepted: Seq<Fragment>,
    pub updates: Seq<(FragmentId, StatusV)>,
    pub drained: int,
}

/// Oldest-first selection over a pool in insertion order: fragments are
/// drained from the front; one the ledger refuses is logged `Rejected`
/// with the ledger's reason, one it accepts is appended to the block and
/// logged `InABlock`; draining stops once `k` fragments are accepted or
/// the pool is empty.
pub open spec fn spec_select(
    frags: Seq<Fragment>,
    verdicts: Map<FragmentId, Seq<char>>,
    date: BlockDate,
    k: int,
) -> SelectionEffect
    decreases frags.len(),
{
    if k <= 0 || frags.len() == 0 {
        SelectionEffect { accepted: Seq::empty(), updates: Seq::empty(), drained: 0 }
    } else {
        let f = frags[0];
        if verdicts.contains_key(f.id) {
            let rest = spec_select(frags.drop_first(), verdicts, date, k);
            SelectionEffect {
                accepted: rest.accepted,
                updates: seq![(f.id, StatusV::Rejected { reason: verdicts[f.id] })] + rest.updates,
                drained: 1 + rest.drained,
            }
        } else {
            let rest = spec_select(frags.drop_first(), verdicts, date, k - 1);
            SelectionEffect {
                accepted: seq![f] + rest.accepted,
                updates: seq![(f.id, StatusV::InABlock { date })] + rest.updates,
                drained: 1 + rest.drained,
            }
        }
    }
}

/// A sequence of status writes folded into a log, in order.
pub open spec fn apply_updates(
    log: Map<FragmentId, StatusV>,
    updates: Seq<(FragmentId, StatusV)>,
) -> Map<FragmentId, StatusV>
    decreases updates.len(),
{
    if updates.len() == 0 {
        log
    } else {
        apply_updates(log, updates.drop_last()).insert(updates.last().0, updates.last().1)
    }
}

/// A selection strategy: one `select` pass per block assembly, then
/// `finalize` surrenders the accumulated block body.
pub trait FragmentSelectionAlgorithm: Sized {
    /// The block contents the strategy has accumulated so far.
    spec fn contents(&self) -> Seq<Fragment>;

    /// What one `select` pass did, relating the strategy, the status log
    /// and the pool before and after the pass.
    spec fn select_post(
        pre: Self,
        post: Self,
        verdicts: Map<FragmentId, Seq<char>>,
        metadata: HeaderContentEvalContext,
        logs_pre: Map<FragmentId, StatusV>,
        logs_post: Map<FragmentId, StatusV>,
        pool_pre: Seq<Fragment>,
        pool_post: Seq<Fragment>,
    ) -> bool;

    fn select(
        &mut self,
        ledger: &Ledger,
        ledger_params: &LedgerParameters,
        metadata: &HeaderContentEvalContext,
        logs: &mut Logs,
        pool: &mut Pool,
    )
        requires
            old(pool).wf(),
        ensures
            final(pool).wf(),
            Self::select_post(
                *old(self),
                *final(self),
                ledger@,
                *metadata,
                old(logs)@,
                final(logs)@,
                old(pool)@,
                final(pool)@,
            ),
    ;

    fn finalize(self) -> (builder: BlockBuilder)
        ensures
            builder@ == self.contents(),
    ;
}

/// The oldest-first strategy: drain the pool in insertion order and accept
/// everything the ledger accepts, up to `max_per_block` fragments.
pub struct OldestFirst {
    builder: BlockBuilder,
    max_per_block: usize,
}

impl OldestFirst {
    /// The cap on accepted fragments per block.
    pub closed spec fn max(&self) -> int {
        self.max_per_block as int
    }

    pub fn new(max_per_block: usize) -> (s: OldestFirst)
        ensures
            s.contents() == Seq::<Fragment>::empty(),
            s.max() == max_per_block,
    {
        OldestFirst { builder: BlockBuilder::new(), max_per_block }
    }
}

impl FragmentSelectionAlgorithm for OldestFirst {
    closed spec fn contents(&self) -> Seq<Fragment> {
        self.builder@
    }

    open spec fn select_post(
        pre: OldestFirst,
        post: OldestFirst,
        verdicts: Map<FragmentId, Seq<char>>,
        metadata: HeaderContentEvalContext,
        logs_pre: Map<FragmentId, StatusV>,
        logs_post: Map<FragmentId, StatusV>,
        pool_pre: Seq<Fragment>,
        pool_post: Seq<Fragment>,
    ) -> bool {
        let effect = spec_select(pool_pre, verdicts, metadata.block_date, pre.max());
        &&& post.max() == pre.max()
        &&& post.contents() == pre.contents() + effect.accepted
        &&& logs_post == apply_updates(logs_pre, effect.updates)
        &&& pool_post == pool_pre.skip(effect.drained)
    }

    fn select(
        &mut self,
        ledger: &Ledger,
        ledger_params: &LedgerParameters,
        metadata: &HeaderContentEvalContext,
        logs: &mut Logs,
        pool: &mut Pool,
    ) {
        let ghost pool0 = pool@;
        let ghost logs0 = logs@;
        let ghost effect = spec_select(pool@, ledger@, metadata.block_date, self.max());
        let ghost mut done_acc: Seq<Fragment> = Seq::empty();
        let ghost mut done_upd: Seq<(FragmentId, StatusV)> = Seq::empty();
        let ghost mut done_drained: int = 0;
        let mut total: usize = 0;

        proof {
            assert(pool0.skip(0) =~= pool0);
            assert(old(self).builder@ + done_acc =~= old(self).builder@);
        }

        while total < self.max_per_block && pool.len() > 0
            invariant
                pool.wf(),
                self.max_per_block == old(self).max_per_block,
                total == done_acc.len(),
                total <= self.max_per_block,
                effect == spec_select(pool0, ledger@, metadata.block_date, old(self).max()),
                self.builder@ == old(self).builder@ + done_acc,
                logs@ == apply_updates(logs0, done_upd),
                pool@ == pool0.skip(done_drained),
                0 <= done_drained <= pool0.len(),
                effect.accepted == done_acc
                    + spec_select(pool@, ledger@, metadata.block_date, old(self).max() - total).accepted,
                effect.updates == done_upd
                    + spec_select(pool@, ledger@, metadata.block_date, old(self).max() - total).updates,
                effect.drained == done_drained
                    + spec_select(pool@, ledger@, metadata.block_date, old(self).max() - total).drained,
            decreases pool@.len(),
        {
            let ghost rest = spec_select(pool@, ledger@, metadata.block_date, old(self).max() - total);
            let f = pool.pop_oldest().unwrap();
            match ledger.apply_fragment(ledger_params, &f, metadata) {
                Ok(_) => {
                    self.builder.message(f);
                    logs.modify(f.id, Status::InABlock { date: metadata.block_date });
                    total = total + 1;
                    proof {
                        let rest2 = spec_select(
                            pool@, ledger@, metadata.block_date, old(self).max() - total,
                        );
                        assert(rest.accepted == seq![f] + rest2.accepted);
                        assert(rest.updates
                            == seq![(f.id, StatusV::InABlock { date: metadata.block_date })]
                                + rest2.updates);
                        assert(done_acc + rest.accepted =~= done_acc.push(f) + rest2.accepted);
                        assert(done_upd + rest.updates
                            =~= done_upd.push((f.id, StatusV::InABlock { date: metadata.block_date }))
                                + rest2.updates);
                        let x = (f.id, StatusV::InABlock { date: metadata.block_date });
                        assert(done_upd.push(x).drop_last() =~= done_upd);
                        assert(done_upd.push(x).last() == x);
                        done_acc = done_acc.push(f);
                        done_upd = done_upd.push(x);
                        done_drained = done_drained + 1;
                        assert(pool@ =~= pool0.skip(done_drained));
                        assert(self.builder@ =~= old(self).builder@ + done_acc);
                        assert(logs@ == apply_updates(logs0, done_upd));
                    }
                }
                Err(error) => {
                    logs.modify(f.id, Status::Rejected { reason: error.into_message() });
                    proof {
                        let rest2 = spec_select(
                            pool@, ledger@, metadata.block_date, old(self).max() - total,
                        );
                        assert(rest.accepted == rest2.accepted);
                        assert(rest.updates
                            == seq![(f.id, StatusV::Rejected { reason: ledger@[f.id] })]
                                + rest2.updates);
                        assert(done_upd + rest.updates
                            =~= done_upd.push((f.id, StatusV::Rejected { reason: ledger@[f.id] }))
                                + rest2.updates);
                        let x = (f.id, StatusV::Rejected { reason: ledger@[f.id] });
                        assert(done_upd.push(x).drop_last() =~= done_upd);
                        assert(done_upd.push(x).last() == x);
                        done_upd = done_upd.push(x);
                        done_drained = done_drained + 1;
                        assert(pool@ =~= pool0.skip(done_drained));
                        assert(logs@ == apply_updates(logs0, done_upd));
                    }
                }
            }
        }
        proof {
            let rest = spec_select(pool@, ledger@, metadata.block_date, old(self).max() - total);
            assert(rest.accepted =~= Seq::<Fragment>::empty());
            assert(rest.updates =~= Seq::<(FragmentId, StatusV)>::empty());
            assert(effect.accepted =~= done_acc);
            assert(effect.updates =~= done_upd);
            assert(self.builder@ =~= old(self).builder@ + effect.accepted);
            assert(pool@ =~= pool0.skip(effect.drained));
        }
    }

    fn finalize(self) -> (builder: BlockBuilder) {
        self.builder
    }
}

/// Selection monotonicity: when the ledger accepts every candidate, an
/// oldest-first pass capped at `k` accepts exactly the `min(k, n)` oldest
/// candidates, in insertion order.
pub proof fn lemma_selection_monotonic(
    frags: Seq<Fragment>,
    verdicts: Map<FragmentId, Seq<char>>,
    date: BlockDate,
    k: int,
)
    requires
        k >= 0,
        forall|i: int| 0 <= i < frags.len() ==> !verdicts.contains_key(#[trigger] frags[i].id),
    ensures
        spec_select(frags, verdicts, date, k).accepted
            == frags.take(if k <= frags.len() { k } else { frags.len() as int }),
    decreases frags.len(),
{
    let m = if k <= frags.len() { k } else { frags.len() as int };
    if k <= 0 || frags.len() == 0 {
        assert(frags.take(m) =~= Seq::<Fragment>::empty());
    } else {
        let rest = frags.drop_first();
        assert(forall|i: int| 0 <= i < rest.len() ==> !verdicts.contains_key(#[trigger] rest[i].id));
        lemma_selection_monotonic(rest, verdicts, date, k - 1);
        let m2 = if k - 1 <= rest.len() { k - 1 } else { rest.len() as int };
        assert(frags.take(m) =~= seq![frags[0]] + rest.take(m2));
    }
}

/// Status log coverage: an oldest-first pass writes one status for every
/// drained fragment, in drain order, and every status written is terminal
/// (`InABlock` or `Rejected`), never `Pending`.
pub proof fn lemma_drained_terminal(
    frags: Seq<Fragment>,
    verdicts: Map<FragmentId, Seq<char>>,
    date: BlockDate,
    k: int,
)
    ensures
        spec_select(frags, verdicts, date, k).updates.len()
            == spec_select(frags, verdicts, date, k).drained,
        spec_select(frags, verdicts, date, k).drained <= frags.len(),
        forall|i: int| 0 <= i < spec_select(frags, verdicts, date, k).updates.len()
            ==> (#[trigger] spec_select(frags, verdicts, date, k).updates[i]).0 == frags[i].id,
        forall|i: int| 0 <= i < spec_select(frags, verdicts, date, k).updates.len()
            ==> !((#[trigger] spec_select(frags, verdicts, date, k).updates[i]).1 is Pending),
    decreases frags.len(),
{
    if k <= 0 || frags.len() == 0 {
    } else {
        lemma_drained_terminal(frags.drop_first(), verdicts, date,
            if verdicts.contains_key(frags[0].id) { k } else { k - 1 });
    }
}

/// Rejected fragments are not emitted: no fragment the ledger refuses
/// appears in the block body an oldest-first pass accumulates.
pub proof fn lemma_rejected_not_selected(
    frags: Seq<Fragment>,
    verdicts: Map<FragmentId, Seq<char>>,
    date: BlockDate,
    k: int,
)
    ensures
        forall|i: int| 0 <= i < spec_select(frags, verdicts, date, k).accepted.len()
            ==> !verdicts.contains_key(
                (#[trigger] spec_select(frags, verdicts, date, k).accepted[i]).id,
            ),
    decreases frags.len(),
{
    if k <= 0 || frags.len() == 0 {
    } else {
        let eff = spec_select(frags, verdicts, date, k);
        if verdicts.contains_key(frags[0].id) {
            lemma_rejected_not_selected(frags.drop_first(), verdicts, date, k);
            let rest = spec_select(frags.drop_first(), verdicts, date, k);
            assert forall|i: int| 0 <= i < eff.accepted.len()
                implies !verdicts.contains_key(eff.accepted[i].id) by {
                assert(eff.accepted[i] == rest.accepted[i]);
                assert(!verdicts.contains_key(rest.accepted[i].id));
            }
        } else {
            lemma_rejected_not_selected(frags.drop_first(), verdicts, date, k - 1);
            let rest = spec_select(frags.drop_first(), verdicts, date, k - 1);
            assert forall|i: int| 0 <= i < eff.accepted.len()
                implies !verdicts.contains_key(eff.accepted[i].id) by {
                if i > 0 {
                    assert(eff.accepted[i] == rest.accepted[i - 1]);
                    assert(!verdicts.contains_key(rest.accepted[i - 1].id));
                } else {
                    assert(eff.accepted[0] == frags[0]);
                }
            }
        }
    }
}

} // verus!
