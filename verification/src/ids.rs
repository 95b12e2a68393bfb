//! Stable identifiers for topology entities and the generator that hands
//! them out. Identifiers are addressed in text as `workspace:N`, `tab:N` and
//! `surface:N`.

use vstd::prelude::*;
use crate::text::{decimal, push_decimal};

verus! {

/// Identifier of a workspace.
#[derive(Clone, Copy, PartialEq, Eq, Structural, Debug, Hash, PartialOrd, Ord)]
pub struct WorkspaceId(pub u64);

/// Identifier of a tab.
#[derive(Clone, Copy, PartialEq, Eq, Structural, Debug, Hash, PartialOrd, Ord)]
pub struct TabId(pub u64);

/// Identifier of a pane (addressed as a "surface").
#[derive(Clone, Copy, PartialEq, Eq, Structural, Debug, Hash, PartialOrd, Ord)]
pub struct PaneId(pub u64);

/// The text form `prefix` followed by the decimal digits of `n`.
pub open spec fn addressed(prefix: Seq<char>, n: u64) -> Seq<char> {
    prefix + decimal(n as nat)
}

impl WorkspaceId {
    pub fn raw(self) -> (r: u64)
        ensures
            r == self.0,
    {
        self.0
    }

    /// `workspace:N`.
    pub fn to_string(&self) -> (s: String)
        ensures
            s@ == addressed(seq!['w', 'o', 'r', 'k', 's', 'p', 'a', 'c', 'e', ':'], self.0),
    {
        let mut s = "workspace:".to_owned();
        proof {
            reveal_strlit("workspace:");
        }
        push_decimal(&mut s, self.0);
        s
    }
}

impl TabId {
    pub fn raw(self) -> (r: u64)
        ensures
            r == self.0,
    {
        self.0
    }

    /// `tab:N`.
    pub fn to_string(&self) -> (s: String)
        ensures
            s@ == addressed(seq!['t', 'a', 'b', ':'], self.0),
    {
        let mut s = "tab:".to_owned();
        proof {
            reveal_strlit("tab:");
        }
        push_decimal(&mut s, self.0);
        s
    }
}

impl PaneId {
    pub fn raw(self) -> (r: u64)
        ensures
            r == self.0,
    {
        self.0
    }

    /// `surface:N`.
    pub fn to_string(&self) -> (s: String)
        ensures
            s@ == addressed(seq!['s', 'u', 'r', 'f', 'a', 'c', 'e', ':'], self.0),
    {
        let mut s = "surface:".to_owned();
        proof {
            reveal_strlit("surface:");
        }
        push_decimal(&mut s, self.0);
        s
    }
}

/// A call on generator `pre` handed out `id` and left it as `post`: the id
/// is the value the generator held, and it moved on by one.
pub open spec fn issues(pre: IdGen, post: IdGen, id: u64) -> bool {
    &&& id == pre.next_value()
    &&& post.next_value() == pre.next_value() + 1
}

/// Monotonic id generator shared by all three kinds of identifier.
#[derive(Clone, Debug)]
pub struct IdGen {
    next: u64,
}

impl IdGen {
    /// The value the next call hands out.
    pub closed spec fn next_value(&self) -> u64 {
        self.next
    }

    /// A fresh generator starts at 1 (0 stays reserved).
    pub fn default() -> (g: IdGen)
        ensures
            g.next_value() == 1,
    {
        IdGen { next: 1 }
    }

    fn bump(&mut self) -> (v: u64)
        requires
            old(self).next_value() < u64::MAX,
        ensures
            v == old(self).next_value(),
            final(self).next_value() == old(self).next_value() + 1,
    {
        let v = self.next;
        self.next = self.next + 1;
        v
    }

    /// A generator that hands out `next` first (one restored from a saved
    /// session).
    pub fn starting_at(next: u64) -> (g: IdGen)
        ensures
            g.next_value() == next,
    {
        IdGen { next }
    }

    /// The value the next call hands out.
    pub fn peek(&self) -> (n: u64)
        ensures
            n == self.next_value(),
    {
        self.next
    }

    pub fn workspace(&mut self) -> (id: WorkspaceId)
        requires
            old(self).next_value() < u64::MAX,
        ensures
            issues(*old(self), *final(self), id.0),
    {
        WorkspaceId(self.bump())
    }

    pub fn tab(&mut self) -> (id: TabId)
        requires
            old(self).next_value() < u64::MAX,
        ensures
            issues(*old(self), *final(self), id.0),
    {
        TabId(self.bump())
    }

    pub fn pane(&mut self) -> (id: PaneId)
        requires
            old(self).next_value() < u64::MAX,
        ensures
            issues(*old(self), *final(self), id.0),
    {
        PaneId(self.bump())
    }
}

/// Ids are unique and increasing: along any run of calls on one
/// generator (of any kind, `workspace`, `tab` or `pane`), each id handed
/// out is greater than every earlier one, by exactly the number of calls
/// between them.
pub proof fn law_ids_strictly_increase(gens: Seq<IdGen>, ids: Seq<u64>)
    requires
        gens.len() == ids.len() + 1,
        forall|i: int| 0 <= i < ids.len() ==> issues(gens[i], gens[i + 1], #[trigger] ids[i]),
    ensures
        forall|i: int, j: int| 0 <= i < j < ids.len() ==> ids[i] < ids[j] && ids[j] == ids[i] + (j - i),
{
    assert forall|k: int| 0 <= k < gens.len() implies #[trigger] gens[k].next_value() == gens[0].next_value() + k by {
        lemma_run_offset(gens, ids, k);
    }
    assert forall|i: int, j: int| 0 <= i < j < ids.len() implies ids[i] < ids[j] && ids[j] == ids[i] + (j - i) by {
        assert(issues(gens[i], gens[i + 1], ids[i]));
        assert(issues(gens[j], gens[j + 1], ids[j]));
    }
}

proof fn lemma_run_offset(gens: Seq<IdGen>, ids: Seq<u64>, k: int)
    requires
        gens.len() == ids.len() + 1,
        forall|i: int| 0 <= i < ids.len() ==> issues(gens[i], gens[i + 1], #[trigger] ids[i]),
        0 <= k < gens.len(),
    ensures
        gens[k].next_value() == gens[0].next_value() + k,
    decreases k,
{
    if k > 0 {
        lemma_run_offset(gens, ids, k - 1);
        assert(issues(gens[k - 1], gens[k], ids[k - 1]));
    }
}

} // verus!
