//! A pane: one surface (terminal or browser) within a tab's split tree, and
//! the id-keyed collection of all panes.

use vstd::prelude::*;
use crate::ids::PaneId;
use crate::notification::RingState;

verus! {

/// What a pane hosts.
#[derive(Clone, Debug, PartialEq, Eq)]
pub enum PaneKind {
    /// A terminal, optionally running a specific command.
    Terminal { command: Option<String> },
    /// A browser pane showing `url`.
    Browser { url: String },
}

#[derive(Clone, Debug, PartialEq, Eq)]
pub struct Pane {
    pub id: PaneId,
    pub title: String,
    pub cwd: Option<String>,
    pub kind: PaneKind,
    pub ring: RingState,
}

/// A fresh terminal pane: titled `terminal`, no directory, idle.
pub open spec fn is_fresh_terminal(p: Pane, id: PaneId) -> bool {
    &&& p.id == id
    &&& p.title@ == seq!['t', 'e', 'r', 'm', 'i', 'n', 'a', 'l']
    &&& p.cwd is None
    &&& p.kind matches PaneKind::Terminal { command } && command is None
    &&& p.ring == RingState::Idle
}

impl PaneKind {
    pub fn default() -> (k: PaneKind)
        ensures
            k matches PaneKind::Terminal { command } && command is None,
    {
        PaneKind::Terminal { command: None }
    }
}

impl Pane {
    /// A fresh terminal pane.
    pub fn terminal(id: PaneId) -> (p: Pane)
        ensures
            is_fresh_terminal(p, id),
    {
        let title = "terminal".to_owned();
        proof {
            reveal_strlit("terminal");
            assert(title@ =~= seq!['t', 'e', 'r', 'm', 'i', 'n', 'a', 'l']);
        }
        Pane { id, title, cwd: None, kind: PaneKind::Terminal { command: None }, ring: RingState::Idle }
    }

    /// A browser pane showing `url`, titled `browser`.
    pub fn browser(id: PaneId, url: &str) -> (p: Pane)
        ensures
            p.id == id,
            p.title@ == seq!['b', 'r', 'o', 'w', 's', 'e', 'r'],
            p.cwd is None,
            p.kind matches PaneKind::Browser { url: u } && u@ == url@,
            p.ring == RingState::Idle,
    {
        let title = "browser".to_owned();
        proof {
            reveal_strlit("browser");
            assert(title@ =~= seq!['b', 'r', 'o', 'w', 's', 'e', 'r']);
        }
        Pane { id, title, cwd: None, kind: PaneKind::Browser { url: url.to_owned() }, ring: RingState::Idle }
    }

    pub fn is_browser(&self) -> (b: bool)
        ensures
            b == (self.kind is Browser),
    {
        match &self.kind {
            PaneKind::Browser { .. } => true,
            _ => false,
        }
    }

    /// The URL of a browser pane.
    pub fn browser_url(&self) -> (u: Option<&str>)
        ensures
            match self.kind {
                PaneKind::Browser { url } => u matches Some(s) && s@ == url@,
                _ => u is None,
            },
    {
        match &self.kind {
            PaneKind::Browser { url } => Some(url.as_str()),
            _ => None,
        }
    }
}

/// All panes, keyed by id (each id at most once).
/// The panes of `s` by id, each inserted in turn (so of two with one id
/// the later one stays).
pub open spec fn panes_by_id(s: Seq<Pane>) -> Map<PaneId, Pane>
    decreases s.len(),
{
    if s.len() == 0 {
        Map::empty()
    } else {
        panes_by_id(s.drop_last()).insert(s.last().id, s.last())
    }
}

#[derive(Clone, Debug)]
pub struct PaneMap {
    items: Vec<Pane>,
}

impl PaneMap {
    /// The panes by id.
    pub closed spec fn map(&self) -> Map<PaneId, Pane> {
        Map::new(|k: PaneId| exists|i: int| 0 <= i < self.items@.len() && self.items@[i].id == k,
            |k: PaneId| self.items@[choose|i: int| 0 <= i < self.items@.len() && self.items@[i].id == k])
    }

    /// Each id occurs once.
    pub closed spec fn wf(&self) -> bool {
        forall|i: int, j: int| 0 <= i < j < self.items@.len() ==> #[trigger] self.items@[i].id != #[trigger] self.items@[j].id
    }

    proof fn lemma_lookup(&self, i: int)
        requires
            self.wf(),
            0 <= i < self.items@.len(),
        ensures
            self.map().contains_key(self.items@[i].id),
            self.map()[self.items@[i].id] == self.items@[i],
    {
        let k = self.items@[i].id;
        let c = choose|j: int| 0 <= j < self.items@.len() && self.items@[j].id == k;
        assert(0 <= c < self.items@.len() && self.items@[c].id == k);
        if c != i {
            if c < i {
                assert(self.items@[c].id != self.items@[i].id);
            } else {
                assert(self.items@[i].id != self.items@[c].id);
            }
        }
    }

    pub fn new() -> (m: PaneMap)
        ensures
            m.map() == Map::<PaneId, Pane>::empty(),
            m.wf(),
    {
        let m = PaneMap { items: Vec::new() };
        assert(m.map() =~= Map::<PaneId, Pane>::empty());
        m
    }

    fn position(&self, id: PaneId) -> (r: Option<usize>)
        requires
            self.wf(),
        ensures
            match r {
                Some(i) => i < self.items@.len() && self.items@[i as int].id == id,
                None => !self.map().contains_key(id),
            },
    {
        let mut i: usize = 0;
        while i < self.items.len()
            invariant
                i <= self.items@.len(),
                forall|j: int| 0 <= j < i ==> (#[trigger] self.items@[j]).id != id,
            decreases self.items@.len() - i,
        {
            if self.items[i].id == id {
                return Some(i);
            }
            i = i + 1;
        }
        None
    }

    pub fn len(&self) -> (n: usize)
        requires
            self.wf(),
        ensures
            n == self.map().len(),
    {
        proof {
            self.lemma_len();
        }
        self.items.len()
    }

    proof fn lemma_len(&self)
        requires
            self.wf(),
        ensures
            self.map().len() == self.items@.len(),
            self.map().dom() == self.items@.map_values(|p: Pane| p.id).to_set(),
    {
        let ids = self.items@.map_values(|p: Pane| p.id);
        assert(self.map().dom() =~= ids.to_set()) by {
            assert forall|k: PaneId| self.map().dom().contains(k) implies ids.to_set().contains(k) by {
                let i = choose|i: int| 0 <= i < self.items@.len() && self.items@[i].id == k;
                assert(ids[i] == k);
            }
            assert forall|k: PaneId| ids.to_set().contains(k) implies self.map().dom().contains(k) by {
                let i = choose|i: int| 0 <= i < ids.len() && ids[i] == k;
                assert(self.items@[i].id == k);
            }
        }
        assert(ids.no_duplicates()) by {
            assert forall|i: int, j: int| 0 <= i < ids.len() && 0 <= j < ids.len() && i != j implies ids[i] != ids[j] by {
                if i < j {
                    assert(self.items@[i].id != self.items@[j].id);
                } else {
                    assert(self.items@[j].id != self.items@[i].id);
                }
            }
        }
        ids.unique_seq_to_set();
    }

    pub fn contains_key(&self, id: PaneId) -> (b: bool)
        requires
            self.wf(),
        ensures
            b == self.map().contains_key(id),
    {
        match self.position(id) {
            Some(i) => {
                proof {
                    self.lemma_lookup(i as int);
                }
                true
            },
            None => false,
        }
    }

    pub fn get(&self, id: PaneId) -> (r: Option<&Pane>)
        requires
            self.wf(),
        ensures
            match r {
                Some(p) => self.map().contains_key(id) && *p == self.map()[id],
                None => !self.map().contains_key(id),
            },
    {
        match self.position(id) {
            Some(i) => {
                proof {
                    self.lemma_lookup(i as int);
                }
                Some(&self.items[i])
            },
            None => None,
        }
    }

    /// The panes of `v` by id; of two with one id the later one stays.
    pub fn from_panes(v: Vec<Pane>) -> (m: PaneMap)
        ensures
            m.wf(),
            m.map() == panes_by_id(v@),
    {
        let mut m = PaneMap::new();
        let mut i: usize = 0;
        while i < v.len()
            invariant
                i <= v@.len(),
                m.wf(),
                m.map() == panes_by_id(v@.take(i as int)),
            decreases v@.len() - i,
        {
            m.insert(copy_pane(&v[i]));
            proof {
                assert(v@.take(i + 1).drop_last() =~= v@.take(i as int));
            }
            i = i + 1;
        }
        assert(v@.take(i as int) =~= v@);
        m
    }

    /// Insert or replace the pane with `pane.id`.
    pub fn insert(&mut self, pane: Pane)
        requires
            old(self).wf(),
        ensures
            final(self).wf(),
            final(self).map() == old(self).map().insert(pane.id, pane),
    {
        let ghost k = pane.id;
        match self.position(pane.id) {
            Some(i) => {
                self.items.set(i, pane);
                proof {
                    assert(self.wf()) by {
                        assert forall|a: int, b: int| 0 <= a < b < self.items@.len() implies #[trigger] self.items@[a].id
                            != #[trigger] self.items@[b].id by {
                            assert(old(self).items@[a].id == self.items@[a].id || a == i);
                            assert(old(self).items@[b].id == self.items@[b].id || b == i);
                            assert(old(self).items@[i as int].id == k);
                        }
                    }
                    self.lemma_map_after_set(old(self), i as int);
                }
            },
            None => {
                self.items.push(pane);
                proof {
                    assert(self.wf()) by {
                        assert forall|a: int, b: int| 0 <= a < b < self.items@.len() implies #[trigger] self.items@[a].id
                            != #[trigger] self.items@[b].id by {
                            if b == self.items@.len() - 1 {
                                if self.items@[a].id == k {
                                    assert(old(self).items@[a].id == k);
                                    assert(old(self).map().contains_key(k));
                                }
                            } else {
                                assert(old(self).items@[a].id != old(self).items@[b].id);
                            }
                        }
                    }
                    let last = (self.items@.len() - 1) as int;
                    assert(self.map() =~= old(self).map().insert(k, pane)) by {
                        assert forall|q: PaneId| #[trigger] self.map().contains_key(q) <==> old(self).map().insert(k, pane).contains_key(q) by {
                            if self.map().contains_key(q) && q != k {
                                let c = choose|c: int| 0 <= c < self.items@.len() && self.items@[c].id == q;
                                assert(old(self).items@[c].id == q);
                            }
                            if old(self).map().contains_key(q) {
                                let c = choose|c: int| 0 <= c < old(self).items@.len() && old(self).items@[c].id == q;
                                assert(self.items@[c].id == q);
                            }
                            if q == k {
                                assert(self.items@[last].id == k);
                            }
                        }
                        assert forall|q: PaneId| #[trigger] self.map().contains_key(q) implies self.map()[q] == old(self).map().insert(k, pane)[q] by {
                            if q == k {
                                self.lemma_lookup(last);
                            } else {
                                let c = choose|c: int| 0 <= c < self.items@.len() && self.items@[c].id == q;
                                self.lemma_lookup(c);
                                old(self).lemma_lookup(c);
                            }
                        }
                    }
                }
            },
        }
    }

    proof fn lemma_map_after_set(&self, before: &PaneMap, i: int)
        requires
            before.wf(),
            self.wf(),
            0 <= i < before.items@.len(),
            self.items@ == before.items@.update(i, self.items@[i]),
            self.items@[i].id == before.items@[i].id,
        ensures
            self.map() == before.map().insert(self.items@[i].id, self.items@[i]),
    {
        let k = self.items@[i].id;
        assert(self.map() =~= before.map().insert(k, self.items@[i])) by {
            assert forall|q: PaneId| #[trigger] self.map().contains_key(q) <==> before.map().insert(k, self.items@[i]).contains_key(q) by {
                if self.map().contains_key(q) {
                    let c = choose|c: int| 0 <= c < self.items@.len() && self.items@[c].id == q;
                    assert(before.items@[c].id == q);
                }
                if before.map().contains_key(q) {
                    let c = choose|c: int| 0 <= c < before.items@.len() && before.items@[c].id == q;
                    assert(self.items@[c].id == q);
                }
                if q == k {
                    assert(self.items@[i].id == k);
                }
            }
            assert forall|q: PaneId| #[trigger] self.map().contains_key(q) implies self.map()[q] == before.map().insert(k, self.items@[i])[q] by {
                let c = choose|c: int| 0 <= c < self.items@.len() && self.items@[c].id == q;
                self.lemma_lookup(c);
                before.lemma_lookup(c);
            }
        }
    }

    /// Remove the pane with `id`, returning it.
    pub fn remove(&mut self, id: PaneId) -> (r: Option<Pane>)
        requires
            old(self).wf(),
        ensures
            final(self).wf(),
            final(self).map() == old(self).map().remove(id),
            match r {
                Some(p) => old(self).map().contains_key(id) && p == old(self).map()[id],
                None => !old(self).map().contains_key(id),
            },
    {
        match self.position(id) {
            Some(i) => {
                proof {
                    self.lemma_lookup(i as int);
                }
                let p = self.items.remove(i);
                proof {
                    assert(self.wf()) by {
                        assert forall|a: int, b: int| 0 <= a < b < self.items@.len() implies #[trigger] self.items@[a].id
                            != #[trigger] self.items@[b].id by {
                            let a2 = if a < i { a } else { a + 1 };
                            let b2 = if b < i { b } else { b + 1 };
                            assert(self.items@[a] == old(self).items@[a2]);
                            assert(self.items@[b] == old(self).items@[b2]);
                            assert(old(self).items@[a2].id != old(self).items@[b2].id);
                        }
                    }
                    assert(self.map() =~= old(self).map().remove(id)) by {
                        assert forall|q: PaneId| #[trigger] self.map().contains_key(q) <==> old(self).map().remove(id).contains_key(q) by {
                            if self.map().contains_key(q) {
                                let c = choose|c: int| 0 <= c < self.items@.len() && self.items@[c].id == q;
                                let c2 = if c < i { c } else { c + 1 };
                                assert(old(self).items@[c2].id == q);
                                if q == id {
                                    assert(old(self).items@[c2].id != old(self).items@[i as int].id || c2 == i);
                                }
                            }
                            if old(self).map().contains_key(q) && q != id {
                                let c = choose|c: int| 0 <= c < old(self).items@.len() && old(self).items@[c].id == q;
                                assert(c != i);
                                let c2 = if c < i { c } else { c - 1 };
                                assert(self.items@[c2].id == q);
                            }
                        }
                        assert forall|q: PaneId| #[trigger] self.map().contains_key(q) implies self.map()[q] == old(self).map().remove(id)[q] by {
                            let c = choose|c: int| 0 <= c < self.items@.len() && self.items@[c].id == q;
                            let c2 = if c < i { c } else { c + 1 };
                            self.lemma_lookup(c);
                            old(self).lemma_lookup(c2);
                        }
                    }
                }
                Some(p)
            },
            None => {
                assert(old(self).map().remove(id) =~= old(self).map());
                None
            },
        }
    }

    /// Replace the pane stored under `pane.id`; returns `false` (and changes
    /// nothing) when there is none.
    pub fn replace(&mut self, pane: Pane) -> (ok: bool)
        requires
            old(self).wf(),
        ensures
            final(self).wf(),
            ok == old(self).map().contains_key(pane.id),
            ok ==> final(self).map() == old(self).map().insert(pane.id, pane),
            !ok ==> final(self).map() == old(self).map(),
    {
        if self.contains_key(pane.id) {
            self.insert(pane);
            true
        } else {
            false
        }
    }

    /// The ids of all panes.
    pub fn keys(&self) -> (v: Vec<PaneId>)
        requires
            self.wf(),
        ensures
            v@.to_set() == self.map().dom(),
            v@.no_duplicates(),
    {
        let mut v: Vec<PaneId> = Vec::new();
        let mut i: usize = 0;
        while i < self.items.len()
            invariant
                i <= self.items@.len(),
                v@ == self.items@.take(i as int).map_values(|p: Pane| p.id),
            decreases self.items@.len() - i,
        {
            v.push(self.items[i].id);
            assert(self.items@.take(i + 1).map_values(|p: Pane| p.id) =~= self.items@.take(i as int).map_values(|p: Pane| p.id).push(self.items@[i as int].id));
            i = i + 1;
        }
        proof {
            assert(self.items@.take(self.items@.len() as int) =~= self.items@);
            self.lemma_len();
            assert forall|a: int, b: int| 0 <= a < v@.len() && 0 <= b < v@.len() && a != b implies v@[a] != v@[b] by {
                if a < b {
                    assert(self.items@[a].id != self.items@[b].id);
                } else {
                    assert(self.items@[b].id != self.items@[a].id);
                }
            }
        }
        v
    }

    fn set_at(&mut self, i: usize, pane: Pane)
        requires
            old(self).wf(),
            i < old(self).items@.len(),
            old(self).items@[i as int].id == pane.id,
        ensures
            final(self).wf(),
            final(self).map() == old(self).map().insert(pane.id, pane),
    {
        let ghost k = pane.id;
        self.items.set(i, pane);
        proof {
            assert(self.wf()) by {
                assert forall|a: int, b: int| 0 <= a < b < self.items@.len() implies #[trigger] self.items@[a].id
                    != #[trigger] self.items@[b].id by {
                    assert(old(self).items@[a].id == self.items@[a].id);
                    assert(old(self).items@[b].id == self.items@[b].id);
                }
            }
            self.lemma_map_after_set(old(self), i as int);
        }
    }

    /// Set the ring of pane `id`; `false` when there is no such pane.
    pub fn set_ring(&mut self, id: PaneId, ring: RingState) -> (ok: bool)
        requires
            old(self).wf(),
        ensures
            final(self).wf(),
            ok == old(self).map().contains_key(id),
            ok ==> final(self).map() == old(self).map().insert(id, Pane { ring, ..old(self).map()[id] }),
            !ok ==> final(self).map() == old(self).map(),
    {
        match self.position(id) {
            Some(i) => {
                proof {
                    self.lemma_lookup(i as int);
                }
                let p = &self.items[i];
                let np = Pane { id: p.id, title: p.title.clone(), cwd: clone_opt_string(&p.cwd), kind: clone_kind(&p.kind), ring };
                self.set_at(i, np);
                true
            },
            None => false,
        }
    }

    /// Set the working directory of pane `id`; `false` when there is no such pane.
    pub fn set_cwd(&mut self, id: PaneId, cwd: Option<String>) -> (ok: bool)
        requires
            old(self).wf(),
        ensures
            final(self).wf(),
            ok == old(self).map().contains_key(id),
            ok ==> final(self).map() == old(self).map().insert(id, Pane { cwd, ..old(self).map()[id] }),
            !ok ==> final(self).map() == old(self).map(),
    {
        match self.position(id) {
            Some(i) => {
                proof {
                    self.lemma_lookup(i as int);
                }
                let p = &self.items[i];
                let np = Pane { id: p.id, title: p.title.clone(), cwd, kind: clone_kind(&p.kind), ring: p.ring };
                self.set_at(i, np);
                true
            },
            None => false,
        }
    }

    /// Set the title of pane `id`; `false` when there is no such pane.
    pub fn set_title(&mut self, id: PaneId, title: String) -> (ok: bool)
        requires
            old(self).wf(),
        ensures
            final(self).wf(),
            ok == old(self).map().contains_key(id),
            ok ==> final(self).map() == old(self).map().insert(id, Pane { title, ..old(self).map()[id] }),
            !ok ==> final(self).map() == old(self).map(),
    {
        match self.position(id) {
            Some(i) => {
                proof {
                    self.lemma_lookup(i as int);
                }
                let p = &self.items[i];
                let np = Pane { id: p.id, title, cwd: clone_opt_string(&p.cwd), kind: clone_kind(&p.kind), ring: p.ring };
                self.set_at(i, np);
                true
            },
            None => false,
        }
    }

    /// Set what pane `id` hosts; `false` when there is no such pane.
    pub fn set_kind(&mut self, id: PaneId, kind: PaneKind) -> (ok: bool)
        requires
            old(self).wf(),
        ensures
            final(self).wf(),
            ok == old(self).map().contains_key(id),
            ok ==> final(self).map() == old(self).map().insert(id, Pane { kind, ..old(self).map()[id] }),
            !ok ==> final(self).map() == old(self).map(),
    {
        match self.position(id) {
            Some(i) => {
                proof {
                    self.lemma_lookup(i as int);
                }
                let p = &self.items[i];
                let np = Pane { id: p.id, title: p.title.clone(), cwd: clone_opt_string(&p.cwd), kind, ring: p.ring };
                self.set_at(i, np);
                true
            },
            None => false,
        }
    }
}

/// A copy of an optional string.
pub fn clone_opt_string(s: &Option<String>) -> (r: Option<String>)
    ensures
        r == *s,
{
    match s {
        Some(x) => Some(x.clone()),
        None => None,
    }
}

/// A copy of a pane.
pub fn copy_pane(p: &Pane) -> (r: Pane)
    ensures
        r == *p,
{
    Pane { id: p.id, title: p.title.clone(), cwd: clone_opt_string(&p.cwd), kind: clone_kind(&p.kind), ring: p.ring }
}

/// A copy of a pane kind.
pub fn clone_kind(k: &PaneKind) -> (r: PaneKind)
    ensures
        r == *k,
{
    match k {
        PaneKind::Terminal { command } => PaneKind::Terminal { command: clone_opt_string(command) },
        PaneKind::Browser { url } => PaneKind::Browser { url: url.clone() },
    }
}

} // verus!
