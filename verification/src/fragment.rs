//! Fragments (pending chain-state changes), their lifecycle status log,
//! and the mempool pool that holds them in insertion order.

use vstd::prelude::*;
use crate::blockcfg::BlockDate;

verus! {

/// Identifier of a fragment: its content hash, held as a plain value.
/// Identifier equality is hash equality.
#[derive(Clone, Copy, Debug, PartialEq, Eq, Hash, Structural)]
pub struct FragmentId(pub u64);

/// A fragment as the mempool and the selection engine see it: an opaque
/// payload named by its content-derived identifier.
#[derive(Clone, Copy, Debug, PartialEq, Eq, Structural)]
pub struct Fragment {
    pub id: FragmentId,
}

impl Fragment {
    pub fn new(id: FragmentId) -> (f: Fragment)
        ensures
            f.id == id,
    {
        Fragment { id }
    }

    pub fn id(&self) -> (id: FragmentId)
        ensures
            id == self.id,
    {
        self.id
    }
}

/// Lifecycle status of a fragment.
#[derive(Clone, Debug, PartialEq, Eq)]
pub enum Status {
    /// In the pool, not yet considered.
    Pending,
    /// Selected into the block of the given date.
    InABlock { date: BlockDate },
    /// Refused by the ledger, with the reason.
    Rejected { reason: String },
}

/// Ghost image of a `Status`, with the reason as a character sequence.
pub ghost enum StatusV {
    Pending,
    InABlock { date: BlockDate },
    Rejected { reason: Seq<char> },
}

impl View for Status {
    type V = StatusV;

    open spec fn view(&self) -> StatusV {
        match self {
            Status::Pending => StatusV::Pending,
            Status::InABlock { date } => StatusV::InABlock { date: *date },
            Status::Rejected { reason } => StatusV::Rejected { reason: reason@ },
        }
    }
}

/// The fragment status log: a mapping from fragment identifier to the
/// fragment's current lifecycle status. Writes are unconditional; the
/// state machine over statuses is the selection engine's responsibility.
pub struct Logs {
    entries: Vec<(FragmentId, Status)>,
}

impl View for Logs {
    type V = Map<FragmentId, StatusV>;

    closed spec fn view(&self) -> Map<FragmentId, StatusV> {
        Logs::written(self.entries@)
    }
}

impl Logs {
    /// The write history folded into a map: the last write wins.
    pub closed spec fn written(entries: Seq<(FragmentId, Status)>) -> Map<FragmentId, StatusV>
        decreases entries.len(),
    {
        if entries.len() == 0 {
            Map::empty()
        } else {
            Logs::written(entries.drop_last()).insert(entries.last().0, entries.last().1@)
        }
    }

    pub fn new() -> (l: Logs)
        ensures
            l@ == Map::<FragmentId, StatusV>::empty(),
    {
        Logs { entries: Vec::new() }
    }

    /// Sets the status recorded for `id`, superseding any earlier one.
    pub fn modify(&mut self, id: FragmentId, status: Status)
        ensures
            final(self)@ == old(self)@.insert(id, status@),
    {
        let ghost s = status@;
        self.entries.push((id, status));
        proof {
            assert(self.entries@.drop_last() =~= old(self).entries@);
            assert(self.entries@.last() == (id, self.entries@.last().1));
            assert(self.entries@.last().1@ == s);
        }
    }

    /// The status recorded for `id`, if any.
    pub fn status_of(&self, id: FragmentId) -> (r: Option<&Status>)
        ensures
            r is Some <==> self@.contains_key(id),
            r matches Some(s) ==> self@.contains_key(id) && s@ == self@[id],
    {
        let mut j: usize = self.entries.len();
        assert(self.entries@.take(j as int) =~= self.entries@);
        while j > 0
            invariant
                j <= self.entries.len(),
                self@ == Logs::written(self.entries@),
                self@.contains_key(id) == Logs::written(self.entries@.take(j as int)).contains_key(id),
                self@.contains_key(id)
                    ==> Logs::written(self.entries@.take(j as int))[id] == self@[id],
            decreases j,
        {
            j = j - 1;
            proof {
                assert(self.entries@.take(j + 1).drop_last() =~= self.entries@.take(j as int));
                assert(self.entries@.take(j + 1).last() == self.entries@[j as int]);
                assert(Logs::written(self.entries@.take(j + 1))
                    == Logs::written(self.entries@.take(j as int))
                        .insert(self.entries@[j as int].0, self.entries@[j as int].1@));
            }
            if self.entries[j].0 == id {
                return Some(&self.entries[j].1);
            }
        }
        assert(self.entries@.take(0) =~= Seq::<(FragmentId, Status)>::empty());
        None
    }
}

/// The first index in `s` holding a fragment with identifier `id`, or the
/// length of `s` when none does.
pub open spec fn find_fragment(s: Seq<Fragment>, id: FragmentId) -> int
    decreases s.len(),
{
    if s.len() == 0 {
        0
    } else if s[0].id == id {
        0
    } else {
        1 + find_fragment(s.drop_first(), id)
    }
}

/// Whether `s` holds a fragment with identifier `id`.
pub open spec fn has_fragment(s: Seq<Fragment>, id: FragmentId) -> bool {
    exists|i: int| 0 <= i < s.len() && s[i].id == id
}

/// Whether the fragment identifiers in `s` are pairwise distinct.
pub open spec fn unique_ids(s: Seq<Fragment>) -> bool {
    forall|i: int, j: int| 0 <= i < j < s.len() ==> s[i].id != s[j].id
}

/// The mempool pool: fragments in insertion order, at most one per
/// identifier. The view is the resident fragments, oldest first; every
/// identifier the oldest-first order yields stays available for lookup
/// until removed.
pub struct Pool {
    entries: Vec<Fragment>,
}

impl View for Pool {
    type V = Seq<Fragment>;

    closed spec fn view(&self) -> Seq<Fragment> {
        self.entries@
    }
}

impl Pool {
    /// Pool well-formedness: resident identifiers are pairwise distinct.
    pub open spec fn wf(&self) -> bool {
        unique_ids(self@)
    }

    pub fn new() -> (p: Pool)
        ensures
            p@ == Seq::<Fragment>::empty(),
            p.wf(),
    {
        Pool { entries: Vec::new() }
    }

    pub fn len(&self) -> (n: usize)
        ensures
            n == self@.len(),
    {
        self.entries.len()
    }

    /// Admits a fragment, unless one with the same identifier is already
    /// resident; reports whether the fragment was admitted.
    pub fn insert(&mut self, fragment: Fragment) -> (admitted: bool)
        requires
            old(self).wf(),
        ensures
            final(self).wf(),
            admitted == !has_fragment(old(self)@, fragment.id),
            admitted ==> final(self)@ == old(self)@.push(fragment),
            !admitted ==> final(self)@ == old(self)@,
    {
        let n = self.entries.len();
        let mut i: usize = 0;
        while i < n
            invariant
                i <= n,
                n == self@.len(),
                self@ == old(self)@,
                old(self).wf(),
                forall|k: int| 0 <= k < i ==> self@[k].id != fragment.id,
            decreases n - i,
        {
            if self.entries[i].id == fragment.id {
                assert(self@[i as int].id == fragment.id);
                return false;
            }
            i = i + 1;
        }
        assert(!has_fragment(self@, fragment.id));
        self.entries.push(fragment);
        return true;
    }

    /// The fragment resident under `id`, if any.
    pub fn lookup(&self, id: FragmentId) -> (r: Option<Fragment>)
        requires
            self.wf(),
        ensures
            r is Some <==> has_fragment(self@, id),
            r matches Some(f) ==> 0 <= find_fragment(self@, id) < self@.len()
                && f == self@[find_fragment(self@, id)],
    {
        let n = self.entries.len();
        let mut i: usize = 0;
        while i < n
            invariant
                i <= n,
                n == self@.len(),
                forall|k: int| 0 <= k < i ==> self@[k].id != id,
            decreases n - i,
        {
            if self.entries[i].id == id {
                proof {
                    lemma_find_fragment_first(self@, id, i as int);
                }
                return Some(self.entries[i]);
            }
            i = i + 1;
        }
        assert(!has_fragment(self@, id));
        return None;
    }

    /// Removes and returns the fragment resident under `id`, if any; the
    /// insertion order of the others is kept.
    pub fn remove(&mut self, id: FragmentId) -> (r: Option<Fragment>)
        requires
            old(self).wf(),
        ensures
            final(self).wf(),
            r is Some <==> has_fragment(old(self)@, id),
            r is None ==> final(self)@ == old(self)@,
            r matches Some(f) ==> ({
                let k = find_fragment(old(self)@, id);
                &&& 0 <= k < old(self)@.len()
                &&& f == old(self)@[k]
                &&& f.id == id
                &&& final(self)@ == old(self)@.remove(k)
            }),
    {
        let n = self.entries.len();
        let mut i: usize = 0;
        while i < n
            invariant
                i <= n,
                n == self@.len(),
                self@ == old(self)@,
                old(self).wf(),
                forall|k: int| 0 <= k < i ==> self@[k].id != id,
            decreases n - i,
        {
            if self.entries[i].id == id {
                proof {
                    assert(self@[i as int].id == id);
                    lemma_find_fragment_first(self@, id, i as int);
                    lemma_unique_ids_remove(self@, i as int);
                }
                let f = self.entries.remove(i);
                return Some(f);
            }
            i = i + 1;
        }
        assert(!has_fragment(self@, id));
        return None;
    }

    /// Removes and returns the oldest resident fragment, if any.
    pub fn pop_oldest(&mut self) -> (r: Option<Fragment>)
        requires
            old(self).wf(),
        ensures
            final(self).wf(),
            r is Some <==> old(self)@.len() > 0,
            r is None ==> final(self)@ == old(self)@,
            r matches Some(f) ==> old(self)@.len() > 0
                && f == old(self)@[0]
                && final(self)@ == old(self)@.drop_first(),
    {
        if self.entries.len() == 0 {
            None
        } else {
            proof {
                lemma_unique_ids_remove(self@, 0);
            }
            let f = self.entries.remove(0);
            assert(self@ =~= old(self)@.drop_first());
            Some(f)
        }
    }

    /// The identifier of the oldest resident fragment, if any.
    pub fn oldest(&self) -> (r: Option<FragmentId>)
        ensures
            r is Some <==> self@.len() > 0,
            r matches Some(id) ==> self@.len() > 0 && id == self@[0].id,
    {
        if self.entries.len() == 0 {
            None
        } else {
            Some(self.entries[0].id)
        }
    }
}

/// Removing one fragment keeps the remaining identifiers pairwise
/// distinct.
pub proof fn lemma_unique_ids_remove(s: Seq<Fragment>, k: int)
    requires
        unique_ids(s),
        0 <= k < s.len(),
    ensures
        unique_ids(s.remove(k)),
{
    let t = s.remove(k);
    assert forall|i: int, j: int| 0 <= i < j < t.len() implies t[i].id != t[j].id by {
        let i0 = if i < k { i } else { i + 1 };
        let j0 = if j < k { j } else { j + 1 };
        assert(t[i] == s[i0]);
        assert(t[j] == s[j0]);
    }
}

/// If position `i` holds `id` and no earlier position does, then `i` is
/// where `find_fragment` points.
pub proof fn lemma_find_fragment_first(s: Seq<Fragment>, id: FragmentId, i: int)
    requires
        0 <= i < s.len(),
        s[i].id == id,
        forall|k: int| 0 <= k < i ==> s[k].id != id,
    ensures
        find_fragment(s, id) == i,
    decreases i,
{
    if i > 0 {
        lemma_find_fragment_first(s.drop_first(), id, i - 1);
    }
}

} // verus!
