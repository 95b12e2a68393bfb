//! Keyboard shortcuts: the map from action id to key chord, kept in action-id
//! order, and the default bindings.

use vstd::prelude::*;
use crate::text::{lemma_text_lt_irrefl, lemma_text_lt_total, lemma_text_lt_trans, text_eq, text_less, text_lt};

verus! {

/// Action id to chord, ordered by action id, each id at most once.
#[derive(Debug, Clone)]
pub struct ShortcutMap {
    items: Vec<(String, String)>,
}

/// The entries are in strictly increasing order of action id.
pub open spec fn sorted_ids(e: Seq<(Seq<char>, Seq<char>)>) -> bool {
    forall|i: int, j: int| 0 <= i < j < e.len() ==> text_lt(#[trigger] e[i].0, #[trigger] e[j].0)
}

/// Selects the entry for action `k`.
pub open spec fn has_id(k: Seq<char>) -> spec_fn((Seq<char>, Seq<char>)) -> bool {
    |x: (Seq<char>, Seq<char>)| x.0 == k
}

/// Position of the entry for action `k`.
pub open spec fn entry_pos(e: Seq<(Seq<char>, Seq<char>)>, k: Seq<char>) -> Option<int> {
    crate::workspace::first_match(e, has_id(k))
}

/// `e` as a map from action id to chord.
pub open spec fn entry_map(e: Seq<(Seq<char>, Seq<char>)>) -> Map<Seq<char>, Seq<char>> {
    Map::new(|k: Seq<char>| entry_pos(e, k) is Some, |k: Seq<char>| e[entry_pos(e, k)->0].1)
}

impl ShortcutMap {
    /// The bindings, in action-id order.
    pub closed spec fn entry_seq(&self) -> Seq<(Seq<char>, Seq<char>)> {
        self.items@.map_values(|p: (String, String)| (p.0@, p.1@))
    }

    /// The bindings as a map.
    pub open spec fn map(&self) -> Map<Seq<char>, Seq<char>> {
        entry_map(self.entry_seq())
    }

    /// Ids are ordered and distinct.
    pub open spec fn wf(&self) -> bool {
        sorted_ids(self.entry_seq())
    }

    /// No bindings.
    pub fn new() -> (m: ShortcutMap)
        ensures
            m.wf(),
            m.entry_seq() == Seq::<(Seq<char>, Seq<char>)>::empty(),
    {
        let m = ShortcutMap { items: Vec::new() };
        assert(m.entry_seq() =~= Seq::<(Seq<char>, Seq<char>)>::empty());
        m
    }

    /// Number of bindings.
    pub fn len(&self) -> (n: usize)
        ensures
            n == self.entry_seq().len(),
    {
        self.items.len()
    }

    pub fn is_empty(&self) -> (b: bool)
        ensures
            b == (self.entry_seq().len() == 0),
    {
        self.items.len() == 0
    }

    /// The bindings, in action-id order.
    pub fn entries(&self) -> (s: &[(String, String)])
        ensures
            s@.map_values(|p: (String, String)| (p.0@, p.1@)) == self.entry_seq(),
    {
        self.items.as_slice()
    }

    fn position(&self, id: &str) -> (r: Option<usize>)
        ensures
            match r {
                Some(i) => entry_pos(self.entry_seq(), id@) == Some(i as int),
                None => entry_pos(self.entry_seq(), id@) is None,
            },
            r matches Some(i) ==> i < self.entry_seq().len() && self.entry_seq()[i as int].0 == id@,
    {
        let ghost e = self.entry_seq();
        let mut i: usize = 0;
        while i < self.items.len()
            invariant
                i <= e.len(),
                e == self.entry_seq(),
                forall|j: int| 0 <= j < i ==> !has_id(id@)(#[trigger] e[j]),
            decreases e.len() - i,
        {
            if text_eq(self.items[i].0.as_str(), id) {
                proof {
                    crate::workspace::lemma_first_match_at(e, has_id(id@), i as int);
                }
                return Some(i);
            }
            i = i + 1;
        }
        proof {
            crate::workspace::lemma_first_match_at(e, has_id(id@), i as int);
        }
        None
    }

    /// The chord bound to action `id`.
    pub fn get(&self, id: &str) -> (r: Option<&String>)
        ensures
            match r {
                Some(c) => self.map().contains_key(id@) && c@ == self.map()[id@],
                None => !self.map().contains_key(id@),
            },
    {
        match self.position(id) {
            Some(i) => Some(&self.items[i].1),
            None => None,
        }
    }

    /// Whether action `id` is bound.
    pub fn contains_key(&self, id: &str) -> (b: bool)
        ensures
            b == self.map().contains_key(id@),
    {
        self.position(id).is_some()
    }

    /// Bind action `id` to `chord`, replacing an existing binding.
    pub fn insert(&mut self, id: String, chord: String)
        requires
            old(self).wf(),
        ensures
            final(self).wf(),
            final(self).map() == old(self).map().insert(id@, chord@),
    {
        let ghost e = self.entry_seq();
        let ghost k = id@;
        let ghost v = chord@;
        let mut i: usize = 0;
        while i < self.items.len() && text_less(self.items[i].0.as_str(), id.as_str())
            invariant
                i <= e.len(),
                e == self.entry_seq(),
                e == old(self).entry_seq(),
                k == id@,
                forall|j: int| 0 <= j < i ==> text_lt(#[trigger] e[j].0, k),
            decreases e.len() - i,
        {
            i = i + 1;
        }
        let replace = i < self.items.len() && text_eq(self.items[i].0.as_str(), id.as_str());
        proof {
            assert forall|j: int| 0 <= j < i implies (#[trigger] e[j]).0 != k by {
                lemma_text_lt_irrefl(k);
            }
            if i < e.len() && !replace {
                lemma_text_lt_total(e[i as int].0, k);
            }
        }
        if replace {
            self.items.set(i, (id, chord));
        } else {
            self.items.insert(i, (id, chord));
        }
        proof {
            let e2 = self.entry_seq();
            if replace {
                assert(e2 =~= e.update(i as int, (k, v)));
            } else {
                assert(e2 =~= e.insert(i as int, (k, v)));
            }
            if replace {
                assert(e[i as int].0 == k);
                assert forall|a: int, b: int| 0 <= a < b < e2.len() implies text_lt(#[trigger] e2[a].0, #[trigger] e2[b].0) by {
                    assert(e2[a].0 == e[a].0 && e2[b].0 == e[b].0);
                }
            } else {
                lemma_sorted_insert(e, i as int, (k, v));
            }
            assert forall|q: Seq<char>| #![auto] entry_pos(e2, q) is Some == (entry_pos(e, q) is Some || q == k) by {
                lemma_pos_sorted(e, q);
                lemma_pos_sorted(e2, q);
                if q == k {
                    if replace {
                        assert(e2[i as int].0 == k);
                    } else {
                        assert(e2[i as int].0 == k);
                    }
                } else if entry_pos(e, q) is Some {
                    let p = entry_pos(e, q)->0;
                    if replace || p < i {
                        assert(e2[p].0 == q);
                    } else {
                        assert(e2[p + 1].0 == q);
                    }
                } else if entry_pos(e2, q) is Some {
                    let p = entry_pos(e2, q)->0;
                    if replace || p < i {
                        assert(e[p].0 == q);
                    } else {
                        assert(e[p - 1].0 == q);
                    }
                }
            }
            assert(entry_map(e2) =~= entry_map(e).insert(k, v)) by {
                assert forall|q: Seq<char>| #[trigger] entry_map(e2).contains_key(q) implies entry_map(e2)[q] == entry_map(e).insert(k, v)[q] by {
                    lemma_pos_sorted(e, q);
                    lemma_pos_sorted(e2, q);
                    let p2 = entry_pos(e2, q)->0;
                    if q == k {
                        assert(e2[i as int].0 == k);
                        if p2 != i {
                            lemma_unique_pos(e2, p2, i as int);
                        }
                    } else {
                        let p = entry_pos(e, q)->0;
                        if replace || p < i {
                            assert(e2[p].0 == q);
                            if p2 != p {
                                lemma_unique_pos(e2, p2, p);
                            }
                        } else {
                            assert(e2[p + 1].0 == q);
                            if p2 != p + 1 {
                                lemma_unique_pos(e2, p2, p + 1);
                            }
                        }
                    }
                }
            }
        }
    }
}

/// The position of an id is where it stands.
pub(crate) proof fn lemma_pos_sorted(e: Seq<(Seq<char>, Seq<char>)>, q: Seq<char>)
    ensures
        entry_pos(e, q) matches Some(p) ==> 0 <= p < e.len() && e[p].0 == q,
        entry_pos(e, q) is None ==> forall|j: int| 0 <= j < e.len() ==> (#[trigger] e[j]).0 != q,
{
    crate::workspace::lemma_first_match(e, has_id(q));
    if let Some(p) = entry_pos(e, q) {
        assert(has_id(q)(e[p]));
    } else {
        assert forall|j: int| 0 <= j < e.len() implies (#[trigger] e[j]).0 != q by {
            assert(!has_id(q)(e[j]));
        }
    }
}

/// Inserting an entry between smaller and larger ids keeps the order.
proof fn lemma_sorted_insert(e: Seq<(Seq<char>, Seq<char>)>, i: int, x: (Seq<char>, Seq<char>))
    requires
        sorted_ids(e),
        0 <= i <= e.len(),
        forall|j: int| 0 <= j < i ==> text_lt(#[trigger] e[j].0, x.0),
        i < e.len() ==> text_lt(x.0, e[i].0),
    ensures
        sorted_ids(e.insert(i, x)),
{
    let e2 = e.insert(i, x);
    assert forall|a: int, b: int| 0 <= a < b < e2.len() implies text_lt(#[trigger] e2[a].0, #[trigger] e2[b].0) by {
        if b < i {
            assert(e2[a] == e[a] && e2[b] == e[b]);
        } else if b == i {
            assert(e2[a] == e[a] && e2[b] == x);
        } else if a < i {
            assert(e2[a] == e[a] && e2[b] == e[b - 1]);
            assert(text_lt(e[a].0, x.0));
            lemma_text_lt_trans(e[a].0, x.0, e[i].0);
            if b - 1 > i {
                lemma_text_lt_trans(e[a].0, e[i].0, e[b - 1].0);
            }
        } else if a == i {
            assert(e2[a] == x && e2[b] == e[b - 1]);
            if b - 1 > i {
                lemma_text_lt_trans(x.0, e[i].0, e[b - 1].0);
            }
        } else {
            assert(e2[a] == e[a - 1] && e2[b] == e[b - 1]);
        }
    }
}

/// In sorted entries two positions holding the same id are the same.
pub(crate) proof fn lemma_unique_pos(e: Seq<(Seq<char>, Seq<char>)>, a: int, b: int)
    requires
        sorted_ids(e),
        0 <= a < e.len(),
        0 <= b < e.len(),
        e[a].0 == e[b].0,
    ensures
        a == b,
{
    if a < b {
        assert(text_lt(e[a].0, e[b].0));
        lemma_text_lt_irrefl(e[a].0);
    } else if b < a {
        assert(text_lt(e[b].0, e[a].0));
        lemma_text_lt_irrefl(e[a].0);
    }
}


/// The default bindings, action id to chord.
pub open spec fn default_bindings() -> Map<Seq<char>, Seq<char>> {
    Map::<Seq<char>, Seq<char>>::empty()
        .insert("newTab"@, "ctrl+shift+t"@)
        .insert("closeTab"@, "ctrl+shift+w"@)
        .insert("nextTab"@, "ctrl+tab"@)
        .insert("previousTab"@, "ctrl+shift+tab"@)
        .insert("newWorkspace"@, "ctrl+shift+n"@)
        .insert("splitHorizontal"@, "ctrl+shift+d"@)
        .insert("splitVertical"@, "ctrl+shift+e"@)
        .insert("openBrowser"@, "ctrl+shift+b"@)
        .insert("closePane"@, "ctrl+shift+x"@)
        .insert("focusLeft"@, "ctrl+alt+left"@)
        .insert("focusRight"@, "ctrl+alt+right"@)
        .insert("focusUp"@, "ctrl+alt+up"@)
        .insert("focusDown"@, "ctrl+alt+down"@)
        .insert("commandPalette"@, "ctrl+shift+p"@)
        .insert("find"@, "ctrl+shift+f"@)
        .insert("toggleNotifications"@, "ctrl+shift+i"@)
        .insert("jumpToLatestNotification"@, "ctrl+shift+j"@)
        .insert("reopenClosedTab"@, "ctrl+shift+z"@)
        .insert("openSettings"@, "ctrl+comma"@)
        .insert("copySelection"@, "ctrl+shift+c"@)
        .insert("paste"@, "ctrl+shift+v"@)
        .insert("equalizeSplits"@, "ctrl+shift+o"@)
        .insert("toggleZoom"@, "ctrl+shift+m"@)
        .insert("closeWorkspace"@, "ctrl+shift+q"@)
        .insert("selectWorkspace1"@, "ctrl+1"@)
        .insert("selectWorkspace2"@, "ctrl+2"@)
        .insert("selectWorkspace3"@, "ctrl+3"@)
        .insert("selectWorkspace4"@, "ctrl+4"@)
        .insert("selectWorkspace5"@, "ctrl+5"@)
        .insert("selectWorkspace6"@, "ctrl+6"@)
        .insert("selectWorkspace7"@, "ctrl+7"@)
        .insert("selectWorkspace8"@, "ctrl+8"@)
        .insert("selectWorkspace9"@, "ctrl+9"@)
        .insert("moveTabToNewWorkspace"@, "ctrl+shift+u"@)
        .insert("selectSurface1"@, "alt+1"@)
        .insert("selectSurface2"@, "alt+2"@)
        .insert("selectSurface3"@, "alt+3"@)
        .insert("selectSurface4"@, "alt+4"@)
        .insert("selectSurface5"@, "alt+5"@)
        .insert("selectSurface6"@, "alt+6"@)
        .insert("selectSurface7"@, "alt+7"@)
        .insert("selectSurface8"@, "alt+8"@)
        .insert("selectSurface9"@, "alt+9"@)
}

/// The default keyboard shortcuts (every action the app binds).
pub fn default_shortcuts() -> (m: ShortcutMap)
    ensures
        m.wf(),
        m.map() == default_bindings(),
{
    let mut m = ShortcutMap::new();
    proof {
        assert(m.map() =~= Map::<Seq<char>, Seq<char>>::empty());
    }
    m.insert("newTab".to_owned(), "ctrl+shift+t".to_owned());
    m.insert("closeTab".to_owned(), "ctrl+shift+w".to_owned());
    m.insert("nextTab".to_owned(), "ctrl+tab".to_owned());
    m.insert("previousTab".to_owned(), "ctrl+shift+tab".to_owned());
    m.insert("newWorkspace".to_owned(), "ctrl+shift+n".to_owned());
    m.insert("splitHorizontal".to_owned(), "ctrl+shift+d".to_owned());
    m.insert("splitVertical".to_owned(), "ctrl+shift+e".to_owned());
    m.insert("openBrowser".to_owned(), "ctrl+shift+b".to_owned());
    m.insert("closePane".to_owned(), "ctrl+shift+x".to_owned());
    m.insert("focusLeft".to_owned(), "ctrl+alt+left".to_owned());
    m.insert("focusRight".to_owned(), "ctrl+alt+right".to_owned());
    m.insert("focusUp".to_owned(), "ctrl+alt+up".to_owned());
    m.insert("focusDown".to_owned(), "ctrl+alt+down".to_owned());
    m.insert("commandPalette".to_owned(), "ctrl+shift+p".to_owned());
    m.insert("find".to_owned(), "ctrl+shift+f".to_owned());
    m.insert("toggleNotifications".to_owned(), "ctrl+shift+i".to_owned());
    m.insert("jumpToLatestNotification".to_owned(), "ctrl+shift+j".to_owned());
    m.insert("reopenClosedTab".to_owned(), "ctrl+shift+z".to_owned());
    m.insert("openSettings".to_owned(), "ctrl+comma".to_owned());
    m.insert("copySelection".to_owned(), "ctrl+shift+c".to_owned());
    m.insert("paste".to_owned(), "ctrl+shift+v".to_owned());
    m.insert("equalizeSplits".to_owned(), "ctrl+shift+o".to_owned());
    m.insert("toggleZoom".to_owned(), "ctrl+shift+m".to_owned());
    m.insert("closeWorkspace".to_owned(), "ctrl+shift+q".to_owned());
    m.insert("selectWorkspace1".to_owned(), "ctrl+1".to_owned());
    m.insert("selectWorkspace2".to_owned(), "ctrl+2".to_owned());
    m.insert("selectWorkspace3".to_owned(), "ctrl+3".to_owned());
    m.insert("selectWorkspace4".to_owned(), "ctrl+4".to_owned());
    m.insert("selectWorkspace5".to_owned(), "ctrl+5".to_owned());
    m.insert("selectWorkspace6".to_owned(), "ctrl+6".to_owned());
    m.insert("selectWorkspace7".to_owned(), "ctrl+7".to_owned());
    m.insert("selectWorkspace8".to_owned(), "ctrl+8".to_owned());
    m.insert("selectWorkspace9".to_owned(), "ctrl+9".to_owned());
    m.insert("moveTabToNewWorkspace".to_owned(), "ctrl+shift+u".to_owned());
    m.insert("selectSurface1".to_owned(), "alt+1".to_owned());
    m.insert("selectSurface2".to_owned(), "alt+2".to_owned());
    m.insert("selectSurface3".to_owned(), "alt+3".to_owned());
    m.insert("selectSurface4".to_owned(), "alt+4".to_owned());
    m.insert("selectSurface5".to_owned(), "alt+5".to_owned());
    m.insert("selectSurface6".to_owned(), "alt+6".to_owned());
    m.insert("selectSurface7".to_owned(), "alt+7".to_owned());
    m.insert("selectSurface8".to_owned(), "alt+8".to_owned());
    m.insert("selectSurface9".to_owned(), "alt+9".to_owned());
    m
}
} // verus!
