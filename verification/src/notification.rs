//! Notification rings and the pending-notification feed. A pane gets an
//! attention ring when an agent wants attention; the feed lists every
//! notification, newest last, and tracks which are unread.

use vstd::prelude::*;
use crate::ids::{PaneId, TabId, WorkspaceId};

verus! {

/// The visual ring state of a pane.
#[derive(Clone, Copy, PartialEq, Eq, Structural, Debug)]
pub enum RingState {
    /// Nothing pending.
    Idle,
    /// Agent is working.
    Busy,
    /// Agent wants attention.
    Attention,
}

impl RingState {
    pub fn default() -> (r: RingState)
        ensures
            r == RingState::Idle,
    {
        RingState::Idle
    }

    pub fn is_attention(self) -> (b: bool)
        ensures
            b == (self == RingState::Attention),
    {
        match self {
            RingState::Attention => true,
            _ => false,
        }
    }
}

/// One entry of the feed.
#[derive(Clone, Debug, PartialEq, Eq)]
pub struct Notification {
    pub id: u64,
    pub workspace: WorkspaceId,
    pub tab: TabId,
    pub pane: PaneId,
    pub title: String,
    pub body: String,
    /// Milliseconds since the Unix epoch, supplied by the caller.
    pub created_at_ms: u64,
    pub read: bool,
}

/// Number of unread entries.
pub open spec fn count_unread(s: Seq<Notification>) -> nat
    decreases s.len(),
{
    if s.len() == 0 {
        0
    } else {
        count_unread(s.drop_last()) + if s.last().read {
            0nat
        } else {
            1nat
        }
    }
}

/// Number of unread entries for `pane`.
pub open spec fn count_unread_for(s: Seq<Notification>, pane: PaneId) -> nat
    decreases s.len(),
{
    if s.len() == 0 {
        0
    } else {
        count_unread_for(s.drop_last(), pane) + if !s.last().read && s.last().pane == pane {
            1nat
        } else {
            0nat
        }
    }
}

/// `n` marked read.
pub open spec fn as_read(n: Notification) -> Notification {
    Notification { read: true, ..n }
}

/// Every entry satisfying `sel` marked read, the others unchanged.
pub open spec fn mark_where(s: Seq<Notification>, sel: spec_fn(Notification) -> bool) -> Seq<
    Notification,
> {
    s.map_values(|n: Notification| if sel(n) {
        as_read(n)
    } else {
        n
    })
}

/// Index of the newest unread entry among the first `k`.
pub open spec fn newest_unread(s: Seq<Notification>, k: int) -> Option<int>
    decreases k,
{
    if k <= 0 {
        None
    } else if !s[k - 1].read {
        Some(k - 1)
    } else {
        newest_unread(s, k - 1)
    }
}

proof fn lemma_count_unread_take(s: Seq<Notification>, i: int)
    requires
        0 <= i < s.len(),
    ensures
        count_unread(s.take(i + 1)) == count_unread(s.take(i)) + if s[i].read {
            0nat
        } else {
            1nat
        },
        count_unread_for(s.take(i + 1), s[i].pane) == count_unread_for(s.take(i), s[i].pane) + if s[i].read {
            0nat
        } else {
            1nat
        },
        forall|p: PaneId| p != s[i].pane ==> count_unread_for(s.take(i + 1), p) == count_unread_for(s.take(i), p),
{
    assert(s.take(i + 1).drop_last() =~= s.take(i));
}

/// Which entries a removal drops.
enum Dropping {
    /// Every entry of this pane.
    Pane(PaneId),
    /// The entry with this id.
    Id(u64),
}

/// Entry `n` survives the removal `d`.
spec fn survives(d: Dropping, n: Notification) -> bool {
    match d {
        Dropping::Pane(p) => n.pane != p,
        Dropping::Id(id) => n.id != id,
    }
}

/// The ordered feed of notifications, newest last.
#[derive(Clone, Debug)]
pub struct NotificationFeed {
    entries: Vec<Notification>,
    next_id: u64,
}

impl NotificationFeed {
    /// The entries, oldest first.
    pub closed spec fn entry_seq(&self) -> Seq<Notification> {
        self.entries@
    }

    /// The id the next push assigns.
    pub closed spec fn next_id_value(&self) -> u64 {
        self.next_id
    }

    /// Ids are strictly increasing and below the next id to hand out.
    pub open spec fn wf(&self) -> bool {
        &&& forall|i: int, j: int|
            0 <= i < j < self.entry_seq().len() ==> #[trigger] self.entry_seq()[i].id
                < #[trigger] self.entry_seq()[j].id
        &&& forall|i: int|
            0 <= i < self.entry_seq().len() ==> #[trigger] self.entry_seq()[i].id
                < self.next_id_value()
    }

    pub fn default() -> (f: NotificationFeed)
        ensures
            f.entry_seq() == Seq::<Notification>::empty(),
            f.next_id_value() == 0,
            f.wf(),
    {
        NotificationFeed { entries: Vec::new(), next_id: 0 }
    }

    /// A feed holding `entries`, oldest first, whose next push gets
    /// `next_id` (one restored from a saved session).
    pub fn from_parts(entries: Vec<Notification>, next_id: u64) -> (f: NotificationFeed)
        ensures
            f.entry_seq() == entries@,
            f.next_id_value() == next_id,
    {
        NotificationFeed { entries, next_id }
    }

    /// Push a new unread notification, returning its id.
    pub fn push(
        &mut self,
        workspace: WorkspaceId,
        tab: TabId,
        pane: PaneId,
        title: &str,
        body: &str,
        created_at_ms: u64,
    ) -> (id: u64)
        requires
            old(self).next_id_value() < u64::MAX,
        ensures
            id == old(self).next_id_value(),
            final(self).next_id_value() == id + 1,
            final(self).entry_seq().len() == old(self).entry_seq().len() + 1,
            final(self).entry_seq().drop_last() == old(self).entry_seq(),
            ({
                let n = final(self).entry_seq().last();
                &&& n.id == id
                &&& n.workspace == workspace
                &&& n.tab == tab
                &&& n.pane == pane
                &&& n.title@ == title@
                &&& n.body@ == body@
                &&& n.created_at_ms == created_at_ms
                &&& !n.read
            }),
            old(self).wf() ==> final(self).wf(),
    {
        let id = self.next_id;
        self.next_id = self.next_id + 1;
        self.entries.push(
            Notification {
                id,
                workspace,
                tab,
                pane,
                title: title.to_owned(),
                body: body.to_owned(),
                created_at_ms,
                read: false,
            },
        );
        assert(self.entries@.drop_last() =~= old(self).entries@);
        id
    }

    /// The id the next pushed notification gets.
    pub fn next_id(&self) -> (n: u64)
        ensures
            n == self.next_id_value(),
    {
        self.next_id
    }

    pub fn entries(&self) -> (s: &[Notification])
        ensures
            s@ == self.entry_seq(),
    {
        self.entries.as_slice()
    }

    pub fn unread_count(&self) -> (n: usize)
        ensures
            n == count_unread(self.entry_seq()),
    {
        let mut n: usize = 0;
        let mut i: usize = 0;
        while i < self.entries.len()
            invariant
                i <= self.entries@.len(),
                n == count_unread(self.entries@.take(i as int)),
                n <= i,
            decreases self.entries@.len() - i,
        {
            proof {
                lemma_count_unread_take(self.entries@, i as int);
            }
            if !self.entries[i].read {
                n = n + 1;
            }
            i = i + 1;
        }
        assert(self.entries@.take(self.entries@.len() as int) =~= self.entries@);
        n
    }

    /// Mark every unread notification of `pane` read; returns how many changed.
    pub fn mark_pane_read(&mut self, pane: PaneId) -> (changed: usize)
        ensures
            final(self).entry_seq() == mark_where(old(self).entry_seq(), |n: Notification| n.pane == pane),
            final(self).next_id_value() == old(self).next_id_value(),
            changed == count_unread_for(old(self).entry_seq(), pane),
            old(self).wf() ==> final(self).wf(),
    {
        let ghost orig = self.entries@;
        let mut changed: usize = 0;
        let mut i: usize = 0;
        while i < self.entries.len()
            invariant
                i <= self.entries@.len(),
                self.entries@.len() == orig.len(),
                self.next_id == old(self).next_id,
                orig == old(self).entries@,
                forall|j: int| 0 <= j < i ==> #[trigger] self.entries@[j] == (if orig[j].pane == pane {
                    as_read(orig[j])
                } else {
                    orig[j]
                }),
                forall|j: int| i <= j < orig.len() ==> #[trigger] self.entries@[j] == orig[j],
                changed == count_unread_for(orig.take(i as int), pane),
                changed <= i,
            decreases orig.len() - i,
        {
            proof {
                lemma_count_unread_take(orig, i as int);
            }
            if self.entries[i].pane == pane && !self.entries[i].read {
                self.entries[i].read = true;
                changed = changed + 1;
            }
            i = i + 1;
        }
        assert(orig.take(orig.len() as int) =~= orig);
        assert(self.entries@ =~= mark_where(orig, |n: Notification| n.pane == pane));
        assert(forall|j: int| 0 <= j < orig.len() ==> #[trigger] self.entries@[j].id == orig[j].id);
        proof {
            if old(self).wf() {
                assert forall|a: int, b: int| 0 <= a < b < self.entries@.len() implies #[trigger] self.entries@[a].id
                    < #[trigger] self.entries@[b].id by {
                    assert(old(self).entry_seq()[a].id < old(self).entry_seq()[b].id);
                }
                assert forall|a: int| 0 <= a < self.entries@.len() implies #[trigger] self.entries@[a].id
                    < self.next_id by {
                    assert(old(self).entry_seq()[a].id < old(self).next_id_value());
                }
            }
        }
        changed
    }

    /// Mark everything read; returns how many changed.
    pub fn mark_all_read(&mut self) -> (changed: usize)
        ensures
            final(self).entry_seq() == mark_where(old(self).entry_seq(), |n: Notification| true),
            final(self).next_id_value() == old(self).next_id_value(),
            changed == count_unread(old(self).entry_seq()),
            count_unread(final(self).entry_seq()) == 0,
            old(self).wf() ==> final(self).wf(),
    {
        let ghost orig = self.entries@;
        let mut changed: usize = 0;
        let mut i: usize = 0;
        while i < self.entries.len()
            invariant
                i <= self.entries@.len(),
                self.entries@.len() == orig.len(),
                self.next_id == old(self).next_id,
                orig == old(self).entries@,
                forall|j: int| 0 <= j < i ==> #[trigger] self.entries@[j] == as_read(orig[j]),
                forall|j: int| i <= j < orig.len() ==> #[trigger] self.entries@[j] == orig[j],
                changed == count_unread(orig.take(i as int)),
                changed <= i,
            decreases orig.len() - i,
        {
            proof {
                lemma_count_unread_take(orig, i as int);
            }
            if !self.entries[i].read {
                self.entries[i].read = true;
                changed = changed + 1;
            }
            i = i + 1;
        }
        assert(orig.take(orig.len() as int) =~= orig);
        assert(self.entries@ =~= mark_where(orig, |n: Notification| true));
        assert(forall|j: int| 0 <= j < orig.len() ==> #[trigger] self.entries@[j].id == orig[j].id);
        proof {
            lemma_all_read_count(self.entries@);
            if old(self).wf() {
                assert forall|a: int, b: int| 0 <= a < b < self.entries@.len() implies #[trigger] self.entries@[a].id
                    < #[trigger] self.entries@[b].id by {
                    assert(old(self).entry_seq()[a].id < old(self).entry_seq()[b].id);
                }
                assert forall|a: int| 0 <= a < self.entries@.len() implies #[trigger] self.entries@[a].id
                    < self.next_id by {
                    assert(old(self).entry_seq()[a].id < old(self).next_id_value());
                }
            }
        }
        changed
    }

    /// The most recent unread notification, if any.
    pub fn latest_unread(&self) -> (r: Option<&Notification>)
        ensures
            match newest_unread(self.entry_seq(), self.entry_seq().len() as int) {
                Some(i) => r matches Some(n) && *n == self.entry_seq()[i],
                None => r is None,
            },
    {
        let mut k: usize = self.entries.len();
        while k > 0
            invariant
                k <= self.entries@.len(),
                newest_unread(self.entries@, self.entries@.len() as int) == newest_unread(
                    self.entries@,
                    k as int,
                ),
            decreases k,
        {
            if !self.entries[k - 1].read {
                return Some(&self.entries[k - 1]);
            }
            k = k - 1;
        }
        None
    }

    /// Drop the notifications of a pane that no longer exists.
    pub fn prune_pane(&mut self, pane: PaneId)
        ensures
            final(self).entry_seq() == old(self).entry_seq().filter(|n: Notification| n.pane != pane),
            final(self).next_id_value() == old(self).next_id_value(),
            old(self).wf() ==> final(self).wf(),
    {
        self.remove_where(Dropping::Pane(pane));
        assert((|n: Notification| survives(Dropping::Pane(pane), n)) =~= (|n: Notification| n.pane != pane));
        assert(old(self).entry_seq().filter(|n: Notification| survives(Dropping::Pane(pane), n))
            =~= old(self).entry_seq().filter(|n: Notification| n.pane != pane));
    }

    /// Mark the notification with `id` read. Returns whether it exists.
    pub fn mark_read(&mut self, id: u64) -> (found: bool)
        ensures
            found == exists|i: int| 0 <= i < old(self).entry_seq().len() && (#[trigger] old(self).entry_seq()[i]).id == id,
            final(self).entry_seq() == mark_where(old(self).entry_seq(), |n: Notification| n.id == id),
            final(self).next_id_value() == old(self).next_id_value(),
            old(self).wf() ==> final(self).wf(),
    {
        let ghost orig = self.entries@;
        let mut found = false;
        let mut i: usize = 0;
        while i < self.entries.len()
            invariant
                i <= self.entries@.len(),
                self.entries@.len() == orig.len(),
                self.next_id == old(self).next_id,
                orig == old(self).entries@,
                forall|j: int| 0 <= j < i ==> #[trigger] self.entries@[j] == (if orig[j].id == id {
                    as_read(orig[j])
                } else {
                    orig[j]
                }),
                forall|j: int| i <= j < orig.len() ==> #[trigger] self.entries@[j] == orig[j],
                found == exists|j: int| 0 <= j < i && (#[trigger] orig[j]).id == id,
            decreases orig.len() - i,
        {
            if self.entries[i].id == id {
                assert(orig[i as int].id == id);
                self.entries[i].read = true;
                found = true;
            }
            i = i + 1;
        }
        assert(self.entries@ =~= mark_where(orig, |n: Notification| n.id == id));
        assert(forall|j: int| 0 <= j < orig.len() ==> #[trigger] self.entries@[j].id == orig[j].id);
        assert(i == orig.len());
        assert(old(self).entry_seq() =~= orig);
        found
    }

    /// Remove the notification with `id`. Returns whether it existed.
    pub fn dismiss(&mut self, id: u64) -> (found: bool)
        ensures
            found == exists|i: int| 0 <= i < old(self).entry_seq().len() && (#[trigger] old(self).entry_seq()[i]).id == id,
            final(self).entry_seq() == old(self).entry_seq().filter(|n: Notification| n.id != id),
            final(self).next_id_value() == old(self).next_id_value(),
            old(self).wf() ==> final(self).wf(),
    {
        let removed = self.remove_where(Dropping::Id(id));
        assert((|n: Notification| survives(Dropping::Id(id), n)) =~= (|n: Notification| n.id != id));
        assert(old(self).entry_seq().filter(|n: Notification| survives(Dropping::Id(id), n))
            =~= old(self).entry_seq().filter(|n: Notification| n.id != id));
        removed
    }

    /// Drop the entries selected by `d`; returns whether any was dropped.
    fn remove_where(&mut self, d: Dropping) -> (dropped: bool)
        ensures
            final(self).entry_seq() == old(self).entry_seq().filter(|n: Notification| survives(d, n)),
            final(self).next_id_value() == old(self).next_id_value(),
            dropped == exists|i: int| 0 <= i < old(self).entry_seq().len() && !survives(d, #[trigger] old(self).entry_seq()[i]),
            old(self).wf() ==> final(self).wf(),
    {
        let ghost pred = |n: Notification| survives(d, n);
        let ghost orig = self.entries@;
        let mut kept: Vec<Notification> = Vec::new();
        let mut dropped = false;
        let mut rest: Vec<Notification> = Vec::new();
        std::mem::swap(&mut rest, &mut self.entries);
        let total = rest.len();
        let mut i: usize = 0;
        while rest.len() > 0
            invariant
                i + rest@.len() == total,
                orig.len() == total,
                forall|j: int| 0 <= j < rest@.len() ==> #[trigger] rest@[j] == orig[i + j],
                kept@ == orig.take(i as int).filter(pred),
                dropped == exists|j: int| 0 <= j < i && !survives(d, #[trigger] orig[j]),
                pred == (|n: Notification| survives(d, n)),
            decreases rest@.len(),
        {
            let n = rest.remove(0);
            assert(n == orig[i as int]);
            proof {
                reveal(Seq::filter);
                assert(orig.take(i + 1).drop_last() =~= orig.take(i as int));
                assert(orig.take(i + 1).last() == n);
            }
            let keep = match d {
                Dropping::Pane(p) => n.pane != p,
                Dropping::Id(id) => n.id != id,
            };
            if keep {
                kept.push(n);
            } else {
                dropped = true;
            }
            i = i + 1;
        }
        assert(orig.take(total as int) =~= orig);
        self.entries = kept;
        proof {
            if old(self).wf() {
                lemma_filter_ids_increasing(orig, pred, self.next_id);
            }
        }
        dropped
    }
}

proof fn lemma_all_read_count(s: Seq<Notification>)
    requires
        forall|i: int| 0 <= i < s.len() ==> (#[trigger] s[i]).read,
    ensures
        count_unread(s) == 0,
    decreases s.len(),
{
    if s.len() > 0 {
        lemma_all_read_count(s.drop_last());
    }
}

proof fn lemma_filter_ids_increasing(s: Seq<Notification>, pred: spec_fn(Notification) -> bool, next: u64)
    requires
        forall|i: int, j: int| 0 <= i < j < s.len() ==> #[trigger] s[i].id < #[trigger] s[j].id,
        forall|i: int| 0 <= i < s.len() ==> #[trigger] s[i].id < next,
    ensures
        forall|i: int, j: int| 0 <= i < j < s.filter(pred).len() ==> #[trigger] s.filter(pred)[i].id < #[trigger] s.filter(pred)[j].id,
        forall|i: int| 0 <= i < s.filter(pred).len() ==> #[trigger] s.filter(pred)[i].id < next,
    decreases s.len(),
{
    reveal(Seq::filter);
    if s.len() > 0 {
        let t = s.drop_last();
        lemma_filter_ids_increasing(t, pred, next);
        let ft = t.filter(pred);
        let fs = s.filter(pred);
        assert forall|i: int| 0 <= i < ft.len() implies (#[trigger] ft[i]).id < s.last().id by {
            t.lemma_filter_contains_rev(pred, ft[i]);
            assert(ft.contains(ft[i]));
            let k = choose|k: int| 0 <= k < t.len() && t[k] == ft[i];
            assert(s[k] == t[k]);
        }
    }
}

/// A freshly pushed (unread) notification adds one to the unread count.
pub proof fn law_push_adds_one_unread(s: Seq<Notification>, n: Notification)
    requires
        !n.read,
    ensures
        count_unread(s.push(n)) == count_unread(s) + 1,
        count_unread_for(s.push(n), n.pane) == count_unread_for(s, n.pane) + 1,
{
    assert(s.push(n).drop_last() =~= s);
}

/// Marking a pane's notifications read leaves none of them unread and does
/// not change how many unread notifications any other pane has.
pub proof fn law_mark_pane_read_clears_only_that_pane(s: Seq<Notification>, pane: PaneId, other: PaneId)
    ensures
        count_unread_for(mark_where(s, |n: Notification| n.pane == pane), pane) == 0,
        other != pane ==> count_unread_for(mark_where(s, |n: Notification| n.pane == pane), other)
            == count_unread_for(s, other),
    decreases s.len(),
{
    if s.len() > 0 {
        law_mark_pane_read_clears_only_that_pane(s.drop_last(), pane, other);
        assert(mark_where(s, |n: Notification| n.pane == pane).drop_last() =~= mark_where(
            s.drop_last(),
            |n: Notification| n.pane == pane,
        ));
    }
}

/// The unread count is the sum over panes: marking one pane read lowers it
/// by exactly that pane's unread count.
pub proof fn law_mark_pane_read_count(s: Seq<Notification>, pane: PaneId)
    ensures
        count_unread(mark_where(s, |n: Notification| n.pane == pane)) + count_unread_for(s, pane)
            == count_unread(s),
    decreases s.len(),
{
    if s.len() > 0 {
        law_mark_pane_read_count(s.drop_last(), pane);
        assert(mark_where(s, |n: Notification| n.pane == pane).drop_last() =~= mark_where(
            s.drop_last(),
            |n: Notification| n.pane == pane,
        ));
    }
}

/// `a` and `b` hold the same entry.
pub open spec fn same_entry(a: Notification, b: Notification) -> bool {
    &&& a.id == b.id
    &&& a.workspace == b.workspace
    &&& a.tab == b.tab
    &&& a.pane == b.pane
    &&& a.title@ == b.title@
    &&& a.body@ == b.body@
    &&& a.created_at_ms == b.created_at_ms
    &&& a.read == b.read
}

/// A copy of an entry.
pub fn copy_entry(n: &Notification) -> (c: Notification)
    ensures
        same_entry(c, *n),
{
    Notification {
        id: n.id,
        workspace: n.workspace,
        tab: n.tab,
        pane: n.pane,
        title: n.title.clone(),
        body: n.body.clone(),
        created_at_ms: n.created_at_ms,
        read: n.read,
    }
}

/// A copy of the feed's entries, oldest first.
pub fn copy_entries(s: &[Notification]) -> (v: Vec<Notification>)
    ensures
        v@.len() == s@.len(),
        forall|i: int| 0 <= i < s@.len() ==> same_entry(#[trigger] v@[i], s@[i]),
{
    let mut v: Vec<Notification> = Vec::new();
    let mut i: usize = 0;
    while i < s.len()
        invariant
            i <= s@.len(),
            v@.len() == i,
            forall|j: int| 0 <= j < i ==> same_entry(#[trigger] v@[j], s@[j]),
        decreases s@.len() - i,
    {
        v.push(copy_entry(&s[i]));
        i = i + 1;
    }
    v
}

} // verus!
