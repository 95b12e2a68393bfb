//! The command palette: the registry of actions it offers, and the ranking
//! of actions against a typed query (a case-insensitive subsequence match
//! scored for leading and contiguous hits).

use vstd::prelude::*;
use crate::shortcuts::ShortcutMap;
use crate::term::{lowercase_of, to_lower_text};
use crate::text::{spec_trim, str_chars, trim_chars, string_from_chars};

verus! {

/// One palette entry.
#[derive(Debug, Clone, PartialEq)]
pub struct PaletteAction {
    pub id: String,
    pub label: String,
    /// The chord bound to this action, if any (shown as a hint).
    pub shortcut: Option<String>,
}

/// The action ids and labels the palette offers, in registry order.
pub open spec fn palette_defs() -> Seq<(Seq<char>, Seq<char>)> {
    seq![
        ("splitHorizontal"@, "Split pane horizontally"@),
        ("splitVertical"@, "Split pane vertically"@),
        ("closePane"@, "Close pane"@),
        ("newTab"@, "New tab"@),
        ("closeTab"@, "Close tab"@),
        ("reopenClosedTab"@, "Reopen closed tab"@),
        ("newWorkspace"@, "New workspace"@),
        ("focusLeft"@, "Focus pane left"@),
        ("focusRight"@, "Focus pane right"@),
        ("focusUp"@, "Focus pane up"@),
        ("focusDown"@, "Focus pane down"@),
        ("toggleNotifications"@, "Toggle notifications panel"@),
        ("jumpToLatestNotification"@, "Jump to latest notification"@),
    ]
}

/// An optional string as text.
pub open spec fn opt_chars(o: Option<String>) -> Option<Seq<char>> {
    match o {
        Some(s) => Some(s@),
        None => None,
    }
}

/// `a` is the registry entry `d` with the chord `m` binds to it.
pub open spec fn is_entry(a: PaletteAction, d: (Seq<char>, Seq<char>), m: Map<Seq<char>, Seq<char>>) -> bool {
    &&& a.id@ == d.0
    &&& a.label@ == d.1
    &&& opt_chars(a.shortcut) == (if m.contains_key(d.0) { Some(m[d.0]) } else { None })
}

fn entry(id: &str, label: &str, shortcuts: &ShortcutMap) -> (a: PaletteAction)
    ensures
        is_entry(a, (id@, label@), shortcuts.map()),
{
    let shortcut = match shortcuts.get(id) {
        Some(c) => Some(c.clone()),
        None => None,
    };
    PaletteAction { id: id.to_owned(), label: label.to_owned(), shortcut }
}

/// Every action the palette can run, with the chord bound to it.
pub fn all_actions(shortcuts: &ShortcutMap) -> (v: Vec<PaletteAction>)
    ensures
        v@.len() == palette_defs().len(),
        forall|i: int| 0 <= i < v@.len() ==> is_entry(#[trigger] v@[i], palette_defs()[i], shortcuts.map()),
{
    let mut v: Vec<PaletteAction> = Vec::new();
    v.push(entry("splitHorizontal", "Split pane horizontally", shortcuts));
    v.push(entry("splitVertical", "Split pane vertically", shortcuts));
    v.push(entry("closePane", "Close pane", shortcuts));
    v.push(entry("newTab", "New tab", shortcuts));
    v.push(entry("closeTab", "Close tab", shortcuts));
    v.push(entry("reopenClosedTab", "Reopen closed tab", shortcuts));
    v.push(entry("newWorkspace", "New workspace", shortcuts));
    v.push(entry("focusLeft", "Focus pane left", shortcuts));
    v.push(entry("focusRight", "Focus pane right", shortcuts));
    v.push(entry("focusUp", "Focus pane up", shortcuts));
    v.push(entry("focusDown", "Focus pane down", shortcuts));
    v.push(entry("toggleNotifications", "Toggle notifications panel", shortcuts));
    v.push(entry("jumpToLatestNotification", "Jump to latest notification", shortcuts));
    v
}

/// The score loop from text position `i`, query position `qi`, last match
/// `last` and running `total`: each match earns 10, a match at the start 8
/// more, a match right after the previous one 5 more. `None` unless the
/// whole query is matched.
pub open spec fn score_from(q: Seq<char>, t: Seq<char>, i: int, qi: int, last: Option<int>, total: int) -> Option<int>
    decreases t.len() - i,
{
    if i < 0 || i >= t.len() {
        if qi >= q.len() {
            Some(total)
        } else {
            None
        }
    } else if 0 <= qi < q.len() && t[i] == q[qi] {
        let bonus = 10 + (if i == 0 { 8int } else { 0int }) + (if last == Some(i - 1) { 5int } else { 0int });
        score_from(q, t, i + 1, qi + 1, Some(i), total + bonus)
    } else {
        score_from(q, t, i + 1, qi, last, total)
    }
}

/// The score of `text` for `query`: `None` if `query` is not a subsequence.
pub open spec fn spec_score(query: Seq<char>, text: Seq<char>) -> Option<int> {
    score_from(query, text, 0, 0, None, 0)
}

fn score(query: &Vec<char>, text: &Vec<char>) -> (r: Option<u128>)
    ensures
        match r {
            Some(s) => spec_score(query@, text@) == Some(s as int),
            None => spec_score(query@, text@) is None,
        },
{
    let mut qi: usize = 0;
    let mut total: u128 = 0;
    let mut last: Option<usize> = None;
    let mut i: usize = 0;
    let n = text.len();
    while i < n
        invariant
            n == text@.len(),
            i <= n,
            qi <= query@.len(),
            qi <= i,
            total <= 23 * i,
            last matches Some(l) ==> l < i,
            spec_score(query@, text@) == score_from(
                query@,
                text@,
                i as int,
                qi as int,
                match last {
                    Some(l) => Some(l as int),
                    None => None,
                },
                total as int,
            ),
        decreases n - i,
    {
        if qi < query.len() && text[i] == query[qi] {
            qi = qi + 1;
            total = total + 10;
            if i == 0 {
                total = total + 8;
            }
            match last {
                Some(l) => {
                    if i == l + 1 {
                        total = total + 5;
                    }
                },
                None => {},
            }
            last = Some(i);
        }
        i = i + 1;
    }
    if qi >= query.len() {
        Some(total)
    } else {
        None
    }
}

/// A matched action and its score.
pub open spec fn scored(a: PaletteAction, s: int) -> (int, PaletteAction) {
    (s, a)
}

/// `sorted` (by descending score) with `x` inserted after every entry
/// scoring at least as much.
pub open spec fn insert_ranked(sorted: Seq<(int, PaletteAction)>, x: (int, PaletteAction)) -> Seq<(int, PaletteAction)>
    decreases sorted.len(),
{
    if sorted.len() == 0 {
        seq![x]
    } else if sorted.last().0 >= x.0 {
        sorted.push(x)
    } else {
        insert_ranked(sorted.drop_last(), x).push(sorted.last())
    }
}

/// `s` sorted by descending score, keeping the order of equal scores.
pub open spec fn ranked(s: Seq<(int, PaletteAction)>) -> Seq<(int, PaletteAction)>
    decreases s.len(),
{
    if s.len() == 0 {
        Seq::empty()
    } else {
        insert_ranked(ranked(s.drop_last()), s.last())
    }
}

/// The actions whose lowercased label matches `q`, with their scores, in
/// registry order.
pub open spec fn matched(q: Seq<char>, actions: Seq<PaletteAction>) -> Seq<(int, PaletteAction)>
    decreases actions.len(),
{
    if actions.len() == 0 {
        Seq::empty()
    } else {
        let rest = matched(q, actions.drop_last());
        match spec_score(q, lowercase_of(actions.last().label@)) {
            Some(s) => rest.push((s, actions.last())),
            None => rest,
        }
    }
}

/// The palette's answer to `query`: everything, in registry order, for a
/// blank query; otherwise the matching actions, best score first, ties in
/// registry order.
pub open spec fn spec_filter(query: Seq<char>, actions: Seq<PaletteAction>) -> Seq<PaletteAction> {
    let q = lowercase_of(spec_trim(query));
    if q.len() == 0 {
        actions
    } else {
        ranked(matched(q, actions)).map_values(|p: (int, PaletteAction)| p.1)
    }
}

fn copy_action(a: &PaletteAction) -> (r: PaletteAction)
    ensures
        r == *a,
{
    PaletteAction {
        id: a.id.clone(),
        label: a.label.clone(),
        shortcut: match &a.shortcut {
            Some(s) => Some(s.clone()),
            None => None,
        },
    }
}

/// Insert `(s, a)` into `out` (sorted by descending score) after every entry
/// scoring at least `s`.
fn insert_by_score(out: &mut Vec<(u128, PaletteAction)>, s: u128, a: PaletteAction)
    ensures
        final(out)@.map_values(|p: (u128, PaletteAction)| (p.0 as int, p.1)) == insert_ranked(
            old(out)@.map_values(|p: (u128, PaletteAction)| (p.0 as int, p.1)),
            (s as int, a),
        ),
{
    let ghost f = |p: (u128, PaletteAction)| (p.0 as int, p.1);
    let ghost o = old(out)@.map_values(f);
    let mut k: usize = out.len();
    proof {
        assert(o.take(k as int) =~= o);
        assert(o.skip(k as int) =~= Seq::<(int, PaletteAction)>::empty());
        assert(insert_ranked(o, (s as int, a)) + Seq::<(int, PaletteAction)>::empty() =~= insert_ranked(o, (s as int, a)));
    }
    while k > 0 && out[k - 1].0 < s
        invariant
            k <= out@.len(),
            out@ == old(out)@,
            o == old(out)@.map_values(f),
            f == (|p: (u128, PaletteAction)| (p.0 as int, p.1)),
            insert_ranked(o, (s as int, a)) == insert_ranked(o.take(k as int), (s as int, a)) + o.skip(k as int),
        decreases k,
    {
        proof {
            let t = o.take(k as int);
            assert(t.last() == o[k - 1]);
            assert(t.drop_last() =~= o.take(k - 1));
            assert(insert_ranked(t, (s as int, a)) == insert_ranked(t.drop_last(), (s as int, a)).push(t.last()));
            assert(o.skip(k - 1) =~= seq![o[k - 1]] + o.skip(k as int));
            assert(insert_ranked(o.take(k - 1), (s as int, a)).push(o[k - 1]) + o.skip(k as int)
                =~= insert_ranked(o.take(k - 1), (s as int, a)) + o.skip(k - 1));
        }
        k = k - 1;
    }
    proof {
        let t = o.take(k as int);
        if k > 0 {
            assert(t.last() == o[k - 1]);
        }
        assert(insert_ranked(t, (s as int, a)) == t.push((s as int, a)));
    }
    out.insert(k, (s, a));
    proof {
        assert(out@.map_values(f) =~= o.take(k as int).push((s as int, a)) + o.skip(k as int));
    }
}

/// Filter and rank actions against a query: a case-insensitive subsequence
/// match of the label; a blank query returns every action in order.
pub fn filter_actions(query: &str, actions: &[PaletteAction]) -> (v: Vec<PaletteAction>)
    ensures
        v@ == spec_filter(query@, actions@),
        spec_trim(query@).len() == 0 ==> v@ == actions@,
{
    let qc = str_chars(query);
    let trimmed = string_from_chars(trim_chars(qc.as_slice()).as_slice());
    let lower = to_lower_text(trimmed.as_str());
    let q = str_chars(lower.as_str());
    let mut out: Vec<PaletteAction> = Vec::new();
    if q.len() == 0 {
        let mut i: usize = 0;
        while i < actions.len()
            invariant
                i <= actions@.len(),
                out@ == actions@.take(i as int),
            decreases actions@.len() - i,
        {
            out.push(copy_action(&actions[i]));
            i = i + 1;
            assert(out@ =~= actions@.take(i as int));
        }
        assert(actions@.take(i as int) =~= actions@);
        return out;
    }
    let ghost f = |p: (u128, PaletteAction)| (p.0 as int, p.1);
    let mut ranking: Vec<(u128, PaletteAction)> = Vec::new();
    let mut i: usize = 0;
    while i < actions.len()
        invariant
            i <= actions@.len(),
            q@ == lowercase_of(spec_trim(query@)),
            f == (|p: (u128, PaletteAction)| (p.0 as int, p.1)),
            ranking@.map_values(f) == ranked(matched(q@, actions@.take(i as int))),
        decreases actions@.len() - i,
    {
        let label = str_chars(to_lower_text(actions[i].label.as_str()).as_str());
        proof {
            assert(actions@.take(i + 1).drop_last() =~= actions@.take(i as int));
        }
        let ghost m0 = matched(q@, actions@.take(i as int));
        proof {
            assert(actions@.take(i + 1).last() == actions@[i as int]);
        }
        match score(&q, &label) {
            Some(s) => {
                insert_by_score(&mut ranking, s, copy_action(&actions[i]));
                proof {
                    let x = (s as int, actions@[i as int]);
                    assert(matched(q@, actions@.take(i + 1)) == m0.push(x));
                    assert(m0.push(x).drop_last() =~= m0);
                }
            },
            None => {},
        }
        i = i + 1;
    }
    proof {
        assert(actions@.take(i as int) =~= actions@);
    }
    let ghost r = ranking@.map_values(f);
    let mut k: usize = 0;
    while k < ranking.len()
        invariant
            k <= ranking@.len(),
            r == ranking@.map_values(f),
            f == (|p: (u128, PaletteAction)| (p.0 as int, p.1)),
            out@ == r.take(k as int).map_values(|p: (int, PaletteAction)| p.1),
        decreases ranking@.len() - k,
    {
        out.push(copy_action(&ranking[k].1));
        k = k + 1;
        assert(out@ =~= r.take(k as int).map_values(|p: (int, PaletteAction)| p.1));
    }
    assert(r.take(k as int) =~= r);
    out
}

/// Scores never increase along `s`.
pub open spec fn by_descending_score(s: Seq<(int, PaletteAction)>) -> bool {
    forall|i: int, j: int| 0 <= i < j < s.len() ==> (#[trigger] s[i]).0 >= (#[trigger] s[j]).0
}

proof fn lemma_insert_ranked(sorted: Seq<(int, PaletteAction)>, x: (int, PaletteAction))
    requires
        by_descending_score(sorted),
    ensures
        by_descending_score(insert_ranked(sorted, x)),
        insert_ranked(sorted, x).len() == sorted.len() + 1,
        forall|k: int|
            0 <= k < insert_ranked(sorted, x).len() ==> #[trigger] insert_ranked(sorted, x)[k] == x
                || sorted.contains(insert_ranked(sorted, x)[k]),
    decreases sorted.len(),
{
    if sorted.len() == 0 {
    } else if sorted.last().0 >= x.0 {
        let r = sorted.push(x);
        assert forall|k: int| 0 <= k < r.len() implies #[trigger] r[k] == x || sorted.contains(r[k]) by {
            if k < sorted.len() {
                assert(r[k] == sorted[k]);
            }
        }
    } else {
        let dl = sorted.drop_last();
        lemma_insert_ranked(dl, x);
        let inner = insert_ranked(dl, x);
        let r = inner.push(sorted.last());
        assert forall|k: int| 0 <= k < inner.len() implies (#[trigger] inner[k]).0 >= sorted.last().0 by {
            if inner[k] != x {
                let j = choose|j: int| 0 <= j < dl.len() && dl[j] == inner[k];
                assert(sorted[j] == dl[j]);
                assert(sorted[sorted.len() - 1] == sorted.last());
            }
        }
        assert forall|i: int, j: int| 0 <= i < j < r.len() implies (#[trigger] r[i]).0 >= (#[trigger] r[j]).0 by {
            assert(r[i] == inner[i]);
            if j < inner.len() {
                assert(r[j] == inner[j]);
            }
        }
        assert forall|k: int| 0 <= k < r.len() implies #[trigger] r[k] == x || sorted.contains(r[k]) by {
            if k < inner.len() {
                assert(r[k] == inner[k]);
                if inner[k] != x {
                    let j = choose|j: int| 0 <= j < dl.len() && dl[j] == inner[k];
                    assert(sorted[j] == dl[j]);
                }
            } else {
                assert(sorted[sorted.len() - 1] == r[k]);
            }
        }
    }
}

/// Ranking keeps every entry and orders them by descending score.
pub proof fn law_ranked_by_descending_score(s: Seq<(int, PaletteAction)>)
    ensures
        ranked(s).len() == s.len(),
        by_descending_score(ranked(s)),
    decreases s.len(),
{
    if s.len() > 0 {
        law_ranked_by_descending_score(s.drop_last());
        lemma_insert_ranked(ranked(s.drop_last()), s.last());
    }
}


proof fn lemma_score_done(q: Seq<char>, t: Seq<char>, i: int, qi: int, last: Option<int>, total: int)
    requires
        qi >= q.len(),
    ensures
        score_from(q, t, i, qi, last, total) == Some(total),
    decreases t.len() - i,
{
    if 0 <= i < t.len() {
        lemma_score_done(q, t, i + 1, qi, last, total);
    }
}

proof fn lemma_score_skip(q: Seq<char>, t: Seq<char>, i: int, k: int, qi: int, last: Option<int>, total: int)
    requires
        0 <= i <= k <= t.len(),
        0 <= qi < q.len(),
        forall|j: int| i <= j < k ==> t[j] != q[qi],
    ensures
        score_from(q, t, i, qi, last, total) == score_from(q, t, k, qi, last, total),
    decreases k - i,
{
    if i < k {
        lemma_score_skip(q, t, i + 1, k, qi, last, total);
    }
}

/// The rest of the query found right after the previous match, letter by
/// letter, earns 15 a letter.
proof fn lemma_score_contiguous(q: Seq<char>, t: Seq<char>, i: int, qi: int, total: int)
    requires
        1 <= i,
        0 <= qi <= q.len(),
        i + (q.len() - qi) <= t.len(),
        forall|j: int| i <= j < i + (q.len() - qi) ==> #[trigger] t[j] == q[j - i + qi],
    ensures
        score_from(q, t, i, qi, Some(i - 1), total) == Some(total + 15 * (q.len() - qi)),
    decreases q.len() - qi,
{
    if qi == q.len() {
        lemma_score_done(q, t, i, qi, Some(i - 1), total);
    } else {
        assert(t[i] == q[qi]);
        lemma_score_contiguous(q, t, i + 1, qi + 1, total + 15);
    }
}

proof fn lemma_score_bounds_from(q: Seq<char>, t: Seq<char>, i: int, qi: int, last: Option<int>, total: int)
    requires
        1 <= i,
        0 <= qi <= q.len(),
        last matches Some(l) ==> l < i,
    ensures
        score_from(q, t, i, qi, last, total) matches Some(s) ==> {
            &&& total + 10 * (q.len() - qi) <= s
            &&& s <= total + 15 * (q.len() - qi) - (if qi < q.len() && last != Some(i - 1) {
                5int
            } else {
                0int
            })
        },
    decreases t.len() - i,
{
    if i < t.len() {
        if qi < q.len() && t[i] == q[qi] {
            let bonus = 10 + (if last == Some(i - 1) { 5int } else { 0int });
            lemma_score_bounds_from(q, t, i + 1, qi + 1, Some(i), total + bonus);
        } else {
            lemma_score_bounds_from(q, t, i + 1, qi, last, total);
        }
    }
}

/// A query found as one unbroken run of the label, with no earlier place its
/// first letter could match, scores 10 a letter, 5 more for each letter
/// right after the one before, and 8 more when the run starts the label.
pub proof fn law_contiguous_match_score(q: Seq<char>, p: Seq<char>, r: Seq<char>)
    requires
        q.len() >= 1,
        !p.contains(q[0]),
    ensures
        spec_score(q, p + q + r) == Some(15 * q.len() - 5 + (if p.len() == 0 { 8int } else { 0int })),
{
    let t = p + q + r;
    let n = q.len() as int;
    let a = p.len() as int;
    assert forall|j: int| 0 <= j < a implies t[j] != q[0] by {
        assert(t[j] == p[j]);
    }
    lemma_score_skip(q, t, 0, a, 0, None, 0);
    assert(t[a] == q[0]);
    let first = 10 + (if a == 0 { 8int } else { 0int });
    assert forall|j: int| a + 1 <= j < (a + 1) + (n - 1) implies #[trigger] t[j] == q[j - (a + 1) + 1] by {}
    lemma_score_contiguous(q, t, a + 1, 1, first);
}

/// Every match of a query of `n` letters scores between `10 n` and what an
/// unbroken run earns: `15 n - 5`, or `15 n + 3` when the label starts with
/// the query's first letter. So a contiguous occurrence ranks at least as
/// high as any scattered one with the same start.
pub proof fn law_score_bounds(q: Seq<char>, t: Seq<char>)
    requires
        q.len() >= 1,
    ensures
        spec_score(q, t) matches Some(s) ==> {
            &&& 10 * q.len() <= s
            &&& s <= 15 * q.len() - 5 + (if t.len() > 0 && t[0] == q[0] { 8int } else { 0int })
        },
{
    if t.len() > 0 {
        if t[0] == q[0] {
            lemma_score_bounds_from(q, t, 1, 1, Some(0), 18);
        } else {
            lemma_score_bounds_from(q, t, 1, 0, None, 0);
        }
    }
}

} // verus!
