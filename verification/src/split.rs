//! Binary split tree arranging the panes of a tab. Leaves are panes; internal
//! nodes split their space between two children with an orientation and a
//! divider ratio. Ratios are fixed-point fractions of [`RATIO_ONE`]
//! (`RATIO_EVEN` is an even split), and layouts are computed in integer
//! coordinates so adjacent regions tile exactly.

use vstd::prelude::*;
use crate::ids::PaneId;

verus! {

/// How a split arranges its two children.
#[derive(Clone, Copy, PartialEq, Eq, Structural, Debug)]
pub enum Orientation {
    /// Children side by side (`first | second`); the divider is vertical.
    Horizontal,
    /// Children stacked (`first` over `second`); the divider is horizontal.
    Vertical,
}

/// Direction of focus movement for spatial navigation.
#[derive(Clone, Copy, PartialEq, Eq, Structural, Debug)]
pub enum FocusDir {
    Left,
    Right,
    Up,
    Down,
}

/// The whole of a region, as a divider ratio.
pub const RATIO_ONE: u32 = 10000;

/// An even split.
pub const RATIO_EVEN: u32 = 5000;

/// Smallest ratio a user adjustment may set.
pub const RATIO_MIN: u32 = 500;

/// Largest ratio a user adjustment may set.
pub const RATIO_MAX: u32 = 9500;

/// Side of the square in which spatial navigation lays panes out.
pub const NAV_UNIT: u64 = 1000000;

/// A node of the split tree.
#[derive(Debug)]
pub enum Node {
    Leaf(PaneId),
    Split {
        orientation: Orientation,
        /// Share of the space given to `first`, in units of `RATIO_ONE`.
        ratio: u32,
        first: Box<Node>,
        second: Box<Node>,
    },
}

impl Node {
    /// Panes in pre-order (left-to-right / top-to-bottom).
    pub open spec fn leaves(self) -> Seq<PaneId>
        decreases self,
    {
        match self {
            Node::Leaf(p) => seq![p],
            Node::Split { first, second, .. } => first.leaves() + second.leaves(),
        }
    }

    /// Number of split (internal) nodes.
    pub open spec fn split_count(self) -> nat
        decreases self,
    {
        match self {
            Node::Leaf(_) => 0,
            Node::Split { first, second, .. } => 1 + first.split_count() + second.split_count(),
        }
    }

    fn collect_leaves(&self, out: &mut Vec<PaneId>)
        ensures
            final(out)@ == old(out)@ + self.leaves(),
        decreases self,
    {
        match self {
            Node::Leaf(p) => {
                out.push(*p);
            },
            Node::Split { first, second, .. } => {
                first.collect_leaves(out);
                second.collect_leaves(out);
                assert(old(out)@ + self.leaves() =~= old(out)@ + first.leaves() + second.leaves());
            },
        }
    }

    fn contains(&self, pane: PaneId) -> (b: bool)
        ensures
            b == self.leaves().contains(pane),
        decreases self,
    {
        match self {
            Node::Leaf(p) => {
                assert(self.leaves() =~= seq![*p]);
                if *p == pane {
                    assert(self.leaves()[0] == pane);
                }
                *p == pane
            },
            Node::Split { first, second, .. } => {
                let a = first.contains(pane);
                let b = second.contains(pane);
                proof {
                    lemma_concat_contains(first.leaves(), second.leaves(), pane);
                }
                a || b
            },
        }
    }
}

/// `x` occurs in `a + b` exactly when it occurs in `a` or in `b`.
pub proof fn lemma_concat_contains<A>(a: Seq<A>, b: Seq<A>, x: A)
    ensures
        (a + b).contains(x) <==> a.contains(x) || b.contains(x),
{
    if a.contains(x) {
        let i = choose|i: int| 0 <= i < a.len() && a[i] == x;
        assert((a + b)[i] == x);
    }
    if b.contains(x) {
        let i = choose|i: int| 0 <= i < b.len() && b[i] == x;
        assert((a + b)[a.len() + i] == x);
    }
    if (a + b).contains(x) {
        let i = choose|i: int| 0 <= i < (a + b).len() && (a + b)[i] == x;
        if i < a.len() {
            assert(a[i] == x);
        } else {
            assert(b[i - a.len()] == x);
        }
    }
}

/// A rectangle; `x`/`y` is the top-left corner.
#[derive(Clone, Copy, PartialEq, Eq, Structural, Debug)]
pub struct Rect {
    pub x: u64,
    pub y: u64,
    pub w: u64,
    pub h: u64,
}

impl Rect {
    pub fn new(x: u64, y: u64, w: u64, h: u64) -> (r: Rect)
        ensures
            r == (Rect { x, y, w, h }),
    {
        Rect { x, y, w, h }
    }

    /// The far edges stay within `u64`.
    pub open spec fn fits(self) -> bool {
        self.x + self.w <= u64::MAX && self.y + self.h <= u64::MAX
    }
}

/// A split boundary that can be dragged to change its ratio.
#[derive(Clone, Copy, PartialEq, Eq, Structural, Debug)]
pub struct Divider {
    /// Pre-order index among split nodes (see [`SplitTree::set_ratio_by_index`]).
    pub split_index: usize,
    pub orientation: Orientation,
    /// The full region the split occupies.
    pub region: Rect,
    pub ratio: u32,
}

/// A ratio as applied to lengths: values above the whole count as the whole.
pub open spec fn applied_ratio(ratio: u32) -> nat {
    if ratio <= RATIO_ONE {
        ratio as nat
    } else {
        RATIO_ONE as nat
    }
}

/// The part of `len` given to the first child at `ratio` (rounded down).
pub open spec fn first_extent(len: u64, ratio: u32) -> u64 {
    (len as nat * applied_ratio(ratio) / (RATIO_ONE as nat)) as u64
}

proof fn lemma_first_extent(len: u64, ratio: u32)
    ensures
        first_extent(len, ratio) <= len,
        first_extent(len, ratio) as nat == len as nat * applied_ratio(ratio) / 10000,
{
    let a = applied_ratio(ratio);
    assert(len as nat * a / 10000 <= len as nat) by (nonlinear_arith)
        requires
            a <= 10000,
    ;
}

/// The regions of the two children of a split occupying `rect`.
pub open spec fn child_rects(rect: Rect, orientation: Orientation, ratio: u32) -> (Rect, Rect) {
    match orientation {
        Orientation::Horizontal => {
            let fw = first_extent(rect.w, ratio);
            (
                Rect { x: rect.x, y: rect.y, w: fw, h: rect.h },
                Rect { x: (rect.x + fw) as u64, y: rect.y, w: (rect.w - fw) as u64, h: rect.h },
            )
        },
        Orientation::Vertical => {
            let fh = first_extent(rect.h, ratio);
            (
                Rect { x: rect.x, y: rect.y, w: rect.w, h: fh },
                Rect { x: rect.x, y: (rect.y + fh) as u64, w: rect.w, h: (rect.h - fh) as u64 },
            )
        },
    }
}

fn exec_child_rects(rect: Rect, orientation: Orientation, ratio: u32) -> (r: (Rect, Rect))
    requires
        rect.fits(),
    ensures
        r == child_rects(rect, orientation, ratio),
        r.0.fits(),
        r.1.fits(),
{
    let applied: u32 = if ratio <= RATIO_ONE {
        ratio
    } else {
        RATIO_ONE
    };
    match orientation {
        Orientation::Horizontal => {
            proof {
                lemma_first_extent(rect.w, ratio);
            }
            let fw = ((rect.w as u128) * (applied as u128) / 10000) as u64;
            (Rect::new(rect.x, rect.y, fw, rect.h), Rect::new(rect.x + fw, rect.y, rect.w - fw, rect.h))
        },
        Orientation::Vertical => {
            proof {
                lemma_first_extent(rect.h, ratio);
            }
            let fh = ((rect.h as u128) * (applied as u128) / 10000) as u64;
            (Rect::new(rect.x, rect.y, rect.w, fh), Rect::new(rect.x, rect.y + fh, rect.w, rect.h - fh))
        },
    }
}

/// Where each pane lies when `node` occupies `rect`, in leaf order.
pub open spec fn spec_layout(node: Node, rect: Rect) -> Seq<(PaneId, Rect)>
    decreases node,
{
    match node {
        Node::Leaf(p) => seq![(p, rect)],
        Node::Split { orientation, ratio, first, second } => {
            let (r1, r2) = child_rects(rect, orientation, ratio);
            spec_layout(*first, r1) + spec_layout(*second, r2)
        },
    }
}

/// The dividers of `node` occupying `rect`, numbered in pre-order from `start`.
pub open spec fn spec_dividers(node: Node, rect: Rect, start: nat) -> Seq<Divider>
    decreases node,
{
    match node {
        Node::Leaf(_) => seq![],
        Node::Split { orientation, ratio, first, second } => {
            let (r1, r2) = child_rects(rect, orientation, ratio);
            seq![Divider { split_index: start as usize, orientation, region: rect, ratio }]
                + spec_dividers(*first, r1, start + 1) + spec_dividers(
                *second,
                r2,
                start + 1 + first.split_count(),
            )
        },
    }
}

/// `node` with the first leaf `target` (pre-order) replaced by an even split
/// holding `target` and `new_pane` (`new_pane` first when `before`); the
/// flag tells whether `target` was found.
pub open spec fn spec_split(
    node: Node,
    target: PaneId,
    new_pane: PaneId,
    orientation: Orientation,
    before: bool,
) -> (Node, bool)
    decreases node,
{
    match node {
        Node::Leaf(p) => {
            if p == target {
                let (a, b) = if before {
                    (Node::Leaf(new_pane), Node::Leaf(p))
                } else {
                    (Node::Leaf(p), Node::Leaf(new_pane))
                };
                (
                    Node::Split {
                        orientation,
                        ratio: RATIO_EVEN,
                        first: Box::new(a),
                        second: Box::new(b),
                    },
                    true,
                )
            } else {
                (node, false)
            }
        },
        Node::Split { orientation: o, ratio, first, second } => {
            let (f2, found) = spec_split(*first, target, new_pane, orientation, before);
            if found {
                (Node::Split { orientation: o, ratio, first: Box::new(f2), second }, true)
            } else {
                let (s2, found2) = spec_split(*second, target, new_pane, orientation, before);
                (Node::Split { orientation: o, ratio, first, second: Box::new(s2) }, found2)
            }
        },
    }
}

/// Index of the first occurrence of `x` in `s`, if any.
pub open spec fn first_index<A>(s: Seq<A>, x: A) -> Option<int>
    decreases s.len(),
{
    if s.len() == 0 {
        None
    } else if s[0] == x {
        Some(0)
    } else {
        match first_index(s.drop_first(), x) {
            Some(i) => Some(i + 1),
            None => None,
        }
    }
}

pub proof fn lemma_first_index<A>(s: Seq<A>, x: A)
    ensures
        first_index(s, x) is None <==> !s.contains(x),
        first_index(s, x) matches Some(i) ==> 0 <= i < s.len() && s[i] == x && forall|j: int|
            0 <= j < i ==> s[j] != x,
    decreases s.len(),
{
    if s.len() > 0 {
        lemma_first_index(s.drop_first(), x);
        if s[0] != x {
            if s.contains(x) {
                let k = choose|k: int| 0 <= k < s.len() && s[k] == x;
                assert(s.drop_first()[k - 1] == x);
            }
            if s.drop_first().contains(x) {
                let k = choose|k: int| 0 <= k < s.drop_first().len() && s.drop_first()[k] == x;
                assert(s[k + 1] == x);
            }
            if first_index(s.drop_first(), x) is Some {
                let i = first_index(s.drop_first(), x)->0;
                assert forall|j: int| 0 <= j < i + 1 implies s[j] != x by {
                    if j > 0 {
                        assert(s[j] == s.drop_first()[j - 1]);
                    }
                }
            }
        } else {
            assert(s.contains(x)) by {
                assert(s[0] == x);
            }
        }
    }
}

proof fn lemma_first_index_concat<A>(a: Seq<A>, b: Seq<A>, x: A)
    ensures
        first_index(a + b, x) == (match first_index(a, x) {
            Some(i) => Some(i),
            None => match first_index(b, x) {
                Some(j) => Some(a.len() + j),
                None => None,
            },
        }),
    decreases a.len(),
{
    if a.len() == 0 {
        assert(a + b =~= b);
    } else {
        assert((a + b).drop_first() =~= a.drop_first() + b);
        lemma_first_index_concat(a.drop_first(), b, x);
    }
}

/// `s` with the element at `i` replaced by the sequence `mid`.
pub open spec fn splice<A>(s: Seq<A>, i: int, mid: Seq<A>) -> Seq<A> {
    s.take(i) + mid + s.skip(i + 1)
}

/// The pair of leaves a split of `target` with `new_pane` creates.
pub open spec fn split_pair(target: PaneId, new_pane: PaneId, before: bool) -> Seq<PaneId> {
    if before {
        seq![new_pane, target]
    } else {
        seq![target, new_pane]
    }
}

proof fn lemma_split_leaves(
    node: Node,
    target: PaneId,
    new_pane: PaneId,
    orientation: Orientation,
    before: bool,
)
    ensures
        ({
            let (n2, found) = spec_split(node, target, new_pane, orientation, before);
            &&& found == node.leaves().contains(target)
            &&& !found ==> n2 == node
            &&& found ==> n2.leaves() == splice(
                node.leaves(),
                first_index(node.leaves(), target)->0,
                split_pair(target, new_pane, before),
            )
            &&& n2.split_count() == node.split_count() + (if found {
                1nat
            } else {
                0nat
            })
        }),
    decreases node,
{
    lemma_first_index(node.leaves(), target);
    match node {
        Node::Leaf(p) => {
            assert(node.leaves() =~= seq![p]);
            if p == target {
                assert(node.leaves()[0] == target);
                let (n2, _) = spec_split(node, target, new_pane, orientation, before);
                assert(Node::Leaf(new_pane).leaves() =~= seq![new_pane]);
                assert(Node::Leaf(p).leaves() =~= seq![p]);
                assert(n2.leaves() =~= splice(node.leaves(), 0, split_pair(target, new_pane, before)));
                assert(Node::Leaf(new_pane).split_count() == 0);
                assert(Node::Leaf(p).split_count() == 0);
                assert(n2.split_count() == 1);
            }
        },
        Node::Split { orientation: o, ratio, first, second } => {
            lemma_split_leaves(*first, target, new_pane, orientation, before);
            lemma_split_leaves(*second, target, new_pane, orientation, before);
            lemma_concat_contains(first.leaves(), second.leaves(), target);
            lemma_first_index_concat(first.leaves(), second.leaves(), target);
            lemma_first_index(first.leaves(), target);
            lemma_first_index(second.leaves(), target);
            let pair = split_pair(target, new_pane, before);
            let (f2, found) = spec_split(*first, target, new_pane, orientation, before);
            if found {
                let i = first_index(first.leaves(), target)->0;
                assert(f2.leaves() + second.leaves() =~= splice(
                    first.leaves() + second.leaves(),
                    i,
                    pair,
                ));
            } else {
                let (s2, found2) = spec_split(*second, target, new_pane, orientation, before);
                if found2 {
                    let j = first_index(second.leaves(), target)->0;
                    assert(first.leaves() + s2.leaves() =~= splice(
                        first.leaves() + second.leaves(),
                        first.leaves().len() + j,
                        pair,
                    ));
                }
            }
        },
    }
}

fn split_node(
    node: Node,
    target: PaneId,
    new_pane: PaneId,
    orientation: Orientation,
    before: bool,
) -> (r: (Node, bool))
    ensures
        r == spec_split(node, target, new_pane, orientation, before),
    decreases node,
{
    match node {
        Node::Leaf(p) => {
            if p == target {
                let ghost expected = spec_split(node, target, new_pane, orientation, before);
                if before {
                    let r = (
                        Node::Split {
                            orientation,
                            ratio: RATIO_EVEN,
                            first: Box::new(Node::Leaf(new_pane)),
                            second: Box::new(Node::Leaf(p)),
                        },
                        true,
                    );
                    assert(r == expected);
                    r
                } else {
                    let r = (
                        Node::Split {
                            orientation,
                            ratio: RATIO_EVEN,
                            first: Box::new(Node::Leaf(p)),
                            second: Box::new(Node::Leaf(new_pane)),
                        },
                        true,
                    );
                    assert(r == expected);
                    r
                }
            } else {
                (Node::Leaf(p), false)
            }
        },
        Node::Split { orientation: o, ratio, first, second } => {
            proof {
                lemma_split_leaves(*first, target, new_pane, orientation, before);
            }
            let (f2, found) = split_node(*first, target, new_pane, orientation, before);
            if found {
                (Node::Split { orientation: o, ratio, first: Box::new(f2), second }, true)
            } else {
                let (s2, found2) = split_node(*second, target, new_pane, orientation, before);
                (Node::Split { orientation: o, ratio, first: Box::new(f2), second: Box::new(s2) }, found2)
            }
        },
    }
}


/// Leaves of an optional subtree.
pub open spec fn opt_leaves(n: Option<Node>) -> Seq<PaneId> {
    match n {
        Some(node) => node.leaves(),
        None => seq![],
    }
}

/// Split nodes of an optional subtree.
pub open spec fn opt_split_count(n: Option<Node>) -> nat {
    match n {
        Some(node) => node.split_count(),
        None => 0,
    }
}

/// Removing `pane`: `None` when it is not in `node`; otherwise the subtree
/// that replaces `node`, in which the sibling of the removed leaf has taken
/// its parent's place (`Some(None)` when nothing is left).
pub open spec fn spec_close(node: Node, pane: PaneId) -> Option<Option<Node>>
    decreases node,
{
    match node {
        Node::Leaf(p) => if p == pane {
            Some(None)
        } else {
            None
        },
        Node::Split { orientation, ratio, first, second } => match spec_close(*first, pane) {
            Some(None) => Some(Some(*second)),
            Some(Some(nf)) => Some(Some(Node::Split { orientation, ratio, first: Box::new(nf), second })),
            None => match spec_close(*second, pane) {
                Some(None) => Some(Some(*first)),
                Some(Some(ns)) => Some(Some(Node::Split { orientation, ratio, first, second: Box::new(ns) })),
                None => None,
            },
        },
    }
}

proof fn lemma_close_leaves(node: Node, pane: PaneId)
    ensures
        spec_close(node, pane) is None <==> !node.leaves().contains(pane),
        spec_close(node, pane) matches Some(x) ==> opt_leaves(x) == node.leaves().remove(
            first_index(node.leaves(), pane)->0,
        ) && opt_split_count(x) + 1 == node.split_count() + (if x is None {
            1nat
        } else {
            0nat
        }),
    decreases node,
{
    lemma_first_index(node.leaves(), pane);
    match node {
        Node::Leaf(p) => {
            assert(node.leaves() =~= seq![p]);
            if p == pane {
                assert(node.leaves()[0] == pane);
                assert(node.leaves().remove(0) =~= Seq::<PaneId>::empty());
            }
        },
        Node::Split { orientation, ratio, first, second } => {
            lemma_close_leaves(*first, pane);
            lemma_close_leaves(*second, pane);
            lemma_concat_contains(first.leaves(), second.leaves(), pane);
            lemma_first_index_concat(first.leaves(), second.leaves(), pane);
            lemma_first_index(first.leaves(), pane);
            lemma_first_index(second.leaves(), pane);
            let fl = first.leaves();
            let sl = second.leaves();
            match spec_close(*first, pane) {
                Some(x) => {
                    let i = first_index(fl, pane)->0;
                    assert(opt_leaves(x) + sl =~= (fl + sl).remove(i));
                },
                None => match spec_close(*second, pane) {
                    Some(x) => {
                        let j = first_index(sl, pane)->0;
                        assert(fl + opt_leaves(x) =~= (fl + sl).remove(fl.len() + j));
                    },
                    None => {},
                },
            }
        },
    }
}

enum CloseResult {
    /// Pane not present; the node comes back unchanged.
    NotFound(Node),
    /// Pane removed; the replacement subtree (`None` when empty).
    Removed(Option<Node>),
}

fn close_node(node: Node, pane: PaneId) -> (r: CloseResult)
    ensures
        match r {
            CloseResult::NotFound(n) => spec_close(node, pane) is None && n == node,
            CloseResult::Removed(x) => spec_close(node, pane) == Some(x),
        },
    decreases node,
{
    match node {
        Node::Leaf(p) => {
            if p == pane {
                CloseResult::Removed(None)
            } else {
                CloseResult::NotFound(Node::Leaf(p))
            }
        },
        Node::Split { orientation, ratio, first, second } => {
            match close_node(*first, pane) {
                CloseResult::Removed(None) => CloseResult::Removed(Some(*second)),
                CloseResult::Removed(Some(new_first)) => CloseResult::Removed(
                    Some(Node::Split { orientation, ratio, first: Box::new(new_first), second }),
                ),
                CloseResult::NotFound(first) => match close_node(*second, pane) {
                    CloseResult::Removed(None) => CloseResult::Removed(Some(first)),
                    CloseResult::Removed(Some(new_second)) => CloseResult::Removed(
                        Some(
                            Node::Split {
                                orientation,
                                ratio,
                                first: Box::new(first),
                                second: Box::new(new_second),
                            },
                        ),
                    ),
                    CloseResult::NotFound(second) => CloseResult::NotFound(
                        Node::Split {
                            orientation,
                            ratio,
                            first: Box::new(first),
                            second: Box::new(second),
                        },
                    ),
                },
            }
        },
    }
}

/// Whether `n` is the leaf `pane`.
pub open spec fn is_leaf_of(n: Node, pane: PaneId) -> bool {
    n matches Node::Leaf(p) && p == pane
}

/// `node` with the ratio of the first split (pre-order) that has the leaf
/// `pane` as a direct child set to `ratio`; the flag tells whether one was found.
pub open spec fn spec_set_parent_ratio(node: Node, pane: PaneId, ratio: u32) -> (Node, bool)
    decreases node,
{
    match node {
        Node::Leaf(_) => (node, false),
        Node::Split { orientation, ratio: r, first, second } => {
            if is_leaf_of(*first, pane) || is_leaf_of(*second, pane) {
                (Node::Split { orientation, ratio, first, second }, true)
            } else {
                let (f2, a) = spec_set_parent_ratio(*first, pane, ratio);
                if a {
                    (Node::Split { orientation, ratio: r, first: Box::new(f2), second }, true)
                } else {
                    let (s2, b) = spec_set_parent_ratio(*second, pane, ratio);
                    (Node::Split { orientation, ratio: r, first, second: Box::new(s2) }, b)
                }
            }
        },
    }
}

proof fn lemma_set_parent_ratio(node: Node, pane: PaneId, ratio: u32)
    ensures
        ({
            let (n2, found) = spec_set_parent_ratio(node, pane, ratio);
            &&& !found ==> n2 == node
            &&& n2.leaves() == node.leaves()
            &&& n2.split_count() == node.split_count()
            &&& found ==> node.leaves().contains(pane)
        }),
    decreases node,
{
    match node {
        Node::Leaf(_) => {},
        Node::Split { orientation, ratio: r, first, second } => {
            lemma_set_parent_ratio(*first, pane, ratio);
            lemma_set_parent_ratio(*second, pane, ratio);
            lemma_concat_contains(first.leaves(), second.leaves(), pane);
            if is_leaf_of(*first, pane) {
                assert(first.leaves()[0] == pane);
            }
            if is_leaf_of(*second, pane) {
                assert(second.leaves()[0] == pane);
            }
        },
    }
}

fn set_ratio_node(node: Node, pane: PaneId, ratio: u32) -> (r: (Node, bool))
    ensures
        r == spec_set_parent_ratio(node, pane, ratio),
    decreases node,
{
    match node {
        Node::Leaf(p) => (Node::Leaf(p), false),
        Node::Split { orientation, ratio: r, first, second } => {
            let directly_parents = match (&*first, &*second) {
                (Node::Leaf(p), _) if *p == pane => true,
                (_, Node::Leaf(p)) if *p == pane => true,
                _ => false,
            };
            if directly_parents {
                return (Node::Split { orientation, ratio, first, second }, true);
            }
            proof {
                lemma_set_parent_ratio(*first, pane, ratio);
            }
            let (f2, a) = set_ratio_node(*first, pane, ratio);
            if a {
                (Node::Split { orientation, ratio: r, first: Box::new(f2), second }, true)
            } else {
                let (s2, b) = set_ratio_node(*second, pane, ratio);
                (Node::Split { orientation, ratio: r, first: Box::new(f2), second: Box::new(s2) }, b)
            }
        },
    }
}

/// `node` with the ratio of its split number `k` (pre-order) set to `ratio`.
pub open spec fn spec_set_ratio_at(node: Node, k: int, ratio: u32) -> Node
    decreases node,
{
    match node {
        Node::Leaf(_) => node,
        Node::Split { orientation, ratio: r, first, second } => {
            if k == 0 {
                Node::Split { orientation, ratio, first, second }
            } else if k - 1 < first.split_count() {
                Node::Split {
                    orientation,
                    ratio: r,
                    first: Box::new(spec_set_ratio_at(*first, k - 1, ratio)),
                    second,
                }
            } else {
                Node::Split {
                    orientation,
                    ratio: r,
                    first,
                    second: Box::new(
                        spec_set_ratio_at(*second, k - 1 - first.split_count(), ratio),
                    ),
                }
            }
        },
    }
}

proof fn lemma_set_ratio_at(node: Node, k: int, ratio: u32)
    ensures
        spec_set_ratio_at(node, k, ratio).leaves() == node.leaves(),
        spec_set_ratio_at(node, k, ratio).split_count() == node.split_count(),
        !(0 <= k < node.split_count()) ==> spec_set_ratio_at(node, k, ratio) == node,
    decreases node,
{
    match node {
        Node::Leaf(_) => {},
        Node::Split { orientation, ratio: r, first, second } => {
            lemma_set_ratio_at(*first, k - 1, ratio);
            lemma_set_ratio_at(*second, k - 1 - first.split_count(), ratio);
        },
    }
}

fn set_ratio_idx(node: Node, k: usize, ratio: u32) -> (r: (Node, Result<(), usize>))
    ensures
        r.0 == spec_set_ratio_at(node, k as int, ratio),
        k < node.split_count() ==> r.1 is Ok,
        k >= node.split_count() ==> r.1 == Err::<(), usize>((k - node.split_count()) as usize),
    decreases node,
{
    proof {
        lemma_set_ratio_at(node, k as int, ratio);
    }
    match node {
        Node::Leaf(p) => (Node::Leaf(p), Err(k)),
        Node::Split { orientation, ratio: r, first, second } => {
            if k == 0 {
                return (Node::Split { orientation, ratio, first, second }, Ok(()));
            }
            proof {
                lemma_set_ratio_at(*first, k - 1, ratio);
                lemma_set_ratio_at(*second, k - 1 - first.split_count(), ratio);
            }
            let (f2, a) = set_ratio_idx(*first, k - 1, ratio);
            match a {
                Ok(()) => (Node::Split { orientation, ratio: r, first: Box::new(f2), second }, Ok(())),
                Err(k2) => {
                    let (s2, b) = set_ratio_idx(*second, k2, ratio);
                    (Node::Split { orientation, ratio: r, first: Box::new(f2), second: Box::new(s2) }, b)
                },
            }
        },
    }
}

/// `node` with every divider reset to an even split.
pub open spec fn spec_equalize(node: Node) -> Node
    decreases node,
{
    match node {
        Node::Leaf(_) => node,
        Node::Split { orientation, first, second, .. } => Node::Split {
            orientation,
            ratio: RATIO_EVEN,
            first: Box::new(spec_equalize(*first)),
            second: Box::new(spec_equalize(*second)),
        },
    }
}

/// Every divider of `node` has the given ratio.
pub open spec fn all_ratios(node: Node, ratio: u32) -> bool
    decreases node,
{
    match node {
        Node::Leaf(_) => true,
        Node::Split { ratio: r, first, second, .. } => r == ratio && all_ratios(*first, ratio)
            && all_ratios(*second, ratio),
    }
}

proof fn lemma_equalize(node: Node)
    ensures
        spec_equalize(node).leaves() == node.leaves(),
        spec_equalize(node).split_count() == node.split_count(),
        all_ratios(spec_equalize(node), RATIO_EVEN),
    decreases node,
{
    match node {
        Node::Leaf(_) => {},
        Node::Split { first, second, .. } => {
            lemma_equalize(*first);
            lemma_equalize(*second);
        },
    }
}

fn equalize_node(node: Node) -> (r: Node)
    ensures
        r == spec_equalize(node),
    decreases node,
{
    match node {
        Node::Leaf(p) => Node::Leaf(p),
        Node::Split { orientation, first, second, .. } => Node::Split {
            orientation,
            ratio: RATIO_EVEN,
            first: Box::new(equalize_node(*first)),
            second: Box::new(equalize_node(*second)),
        },
    }
}

/// Exchanges the pane ids `a` and `b`.
pub open spec fn swap_label(p: PaneId, a: PaneId, b: PaneId) -> PaneId {
    if p == a {
        b
    } else if p == b {
        a
    } else {
        p
    }
}

/// `node` with the leaves `a` and `b` exchanging places.
pub open spec fn spec_swap(node: Node, a: PaneId, b: PaneId) -> Node
    decreases node,
{
    match node {
        Node::Leaf(p) => Node::Leaf(swap_label(p, a, b)),
        Node::Split { orientation, ratio, first, second } => Node::Split {
            orientation,
            ratio,
            first: Box::new(spec_swap(*first, a, b)),
            second: Box::new(spec_swap(*second, a, b)),
        },
    }
}

proof fn lemma_swap_leaves(node: Node, a: PaneId, b: PaneId)
    ensures
        spec_swap(node, a, b).leaves() == node.leaves().map_values(|p: PaneId| swap_label(p, a, b)),
        spec_swap(node, a, b).split_count() == node.split_count(),
    decreases node,
{
    match node {
        Node::Leaf(p) => {
            assert(node.leaves().map_values(|p: PaneId| swap_label(p, a, b)) =~= seq![swap_label(p, a, b)]);
        },
        Node::Split { first, second, .. } => {
            lemma_swap_leaves(*first, a, b);
            lemma_swap_leaves(*second, a, b);
            assert((first.leaves() + second.leaves()).map_values(|p: PaneId| swap_label(p, a, b))
                =~= first.leaves().map_values(|p: PaneId| swap_label(p, a, b)) + second.leaves().map_values(|p: PaneId| swap_label(p, a, b)));
        },
    }
}

fn swap_node(node: Node, a: PaneId, b: PaneId) -> (r: Node)
    ensures
        r == spec_swap(node, a, b),
    decreases node,
{
    match node {
        Node::Leaf(p) => Node::Leaf(
            if p == a {
                b
            } else if p == b {
                a
            } else {
                p
            },
        ),
        Node::Split { orientation, ratio, first, second } => Node::Split {
            orientation,
            ratio,
            first: Box::new(swap_node(*first, a, b)),
            second: Box::new(swap_node(*second, a, b)),
        },
    }
}

proof fn lemma_layout_panes(node: Node, rect: Rect)
    ensures
        spec_layout(node, rect).map_values(|e: (PaneId, Rect)| e.0) == node.leaves(),
    decreases node,
{
    match node {
        Node::Leaf(p) => {
            assert(spec_layout(node, rect).map_values(|e: (PaneId, Rect)| e.0) =~= seq![p]);
        },
        Node::Split { orientation, ratio, first, second } => {
            let (r1, r2) = child_rects(rect, orientation, ratio);
            lemma_layout_panes(*first, r1);
            lemma_layout_panes(*second, r2);
            assert((spec_layout(*first, r1) + spec_layout(*second, r2)).map_values(
                |e: (PaneId, Rect)| e.0,
            ) =~= spec_layout(*first, r1).map_values(|e: (PaneId, Rect)| e.0) + spec_layout(
                *second,
                r2,
            ).map_values(|e: (PaneId, Rect)| e.0));
        },
    }
}

proof fn lemma_dividers(node: Node, rect: Rect, start: nat)
    ensures
        spec_dividers(node, rect, start).len() == node.split_count(),
        forall|i: int|
            0 <= i < node.split_count() ==> #[trigger] spec_dividers(node, rect, start)[i].split_index
                == (start + i) as usize,
    decreases node,
{
    match node {
        Node::Leaf(_) => {},
        Node::Split { orientation, ratio, first, second } => {
            let (r1, r2) = child_rects(rect, orientation, ratio);
            lemma_dividers(*first, r1, start + 1);
            lemma_dividers(*second, r2, start + 1 + first.split_count());
            let d = spec_dividers(node, rect, start);
            let head = seq![Divider { split_index: start as usize, orientation, region: rect, ratio }];
            let d1 = spec_dividers(*first, r1, start + 1);
            let d2 = spec_dividers(*second, r2, start + 1 + first.split_count());
            assert forall|i: int| 0 <= i < node.split_count() implies #[trigger] d[i].split_index
                == (start + i) as usize by {
                if i == 0 {
                    assert(d[i] == head[0]);
                } else if i < 1 + first.split_count() {
                    assert(d[i] == d1[i - 1]);
                } else {
                    assert(d[i] == d2[i - 1 - first.split_count()]);
                }
            }
        },
    }
}

fn layout_node(node: &Node, rect: Rect, out: &mut Vec<(PaneId, Rect)>)
    requires
        rect.fits(),
    ensures
        final(out)@ == old(out)@ + spec_layout(*node, rect),
    decreases node,
{
    match node {
        Node::Leaf(p) => {
            out.push((*p, rect));
        },
        Node::Split { orientation, ratio, first, second } => {
            let (r1, r2) = exec_child_rects(rect, *orientation, *ratio);
            layout_node(first, r1, out);
            layout_node(second, r2, out);
            assert(old(out)@ + spec_layout(*node, rect) =~= old(out)@ + spec_layout(**first, r1)
                + spec_layout(**second, r2));
        },
    }
}

fn collect_dividers(node: &Node, rect: Rect, out: &mut Vec<Divider>)
    requires
        rect.fits(),
    ensures
        final(out)@ == old(out)@ + spec_dividers(*node, rect, old(out)@.len()),
    decreases node,
{
    match node {
        Node::Leaf(_) => {
            assert(spec_dividers(*node, rect, old(out)@.len()) =~= Seq::<Divider>::empty());
        },
        Node::Split { orientation, ratio, first, second } => {
            let my_index = out.len();
            out.push(Divider { split_index: my_index, orientation: *orientation, region: rect, ratio: *ratio });
            let (r1, r2) = exec_child_rects(rect, *orientation, *ratio);
            let ghost mid = out@;
            collect_dividers(first, r1, out);
            proof {
                lemma_dividers(**first, r1, mid.len());
            }
            collect_dividers(second, r2, out);
            assert(old(out)@ + spec_dividers(*node, rect, old(out)@.len()) =~= old(out)@ + seq![
                Divider { split_index: my_index, orientation: *orientation, region: rect, ratio: *ratio },
            ] + spec_dividers(**first, r1, old(out)@.len() + 1) + spec_dividers(
                **second,
                r2,
                old(out)@.len() + 1 + first.split_count(),
            ));
        },
    }
}

/// Doubled centre of a rectangle (so it stays integral).
pub open spec fn center2(r: Rect) -> (int, int) {
    (2 * r.x + r.w, 2 * r.y + r.h)
}

pub open spec fn abs_diff(a: int, b: int) -> int {
    if a >= b {
        a - b
    } else {
        b - a
    }
}

/// Distance used to rank panes in direction `dir`: the primary axis counts
/// double so the nearest pane that way wins, ties broken by the cross axis.
pub open spec fn nav_dist(r: Rect, src: Rect, dir: FocusDir) -> int {
    let (cx, cy) = center2(r);
    let (sx, sy) = center2(src);
    match dir {
        FocusDir::Left | FocusDir::Right => 2 * abs_diff(cx, sx) + abs_diff(cy, sy),
        FocusDir::Up | FocusDir::Down => 2 * abs_diff(cy, sy) + abs_diff(cx, sx),
    }
}

/// `r` lies wholly on the `dir` side of `src`.
pub open spec fn in_direction(r: Rect, src: Rect, dir: FocusDir) -> bool {
    match dir {
        FocusDir::Left => r.x + r.w <= src.x,
        FocusDir::Right => r.x >= src.x + src.w,
        FocusDir::Up => r.y + r.h <= src.y,
        FocusDir::Down => r.y >= src.y + src.h,
    }
}

/// Entry `j` of `lay` is another pane lying in direction `dir`.
pub open spec fn is_candidate(
    lay: Seq<(PaneId, Rect)>,
    from: PaneId,
    src: Rect,
    dir: FocusDir,
    j: int,
) -> bool {
    lay[j].0 != from && in_direction(lay[j].1, src, dir)
}

/// Among the first `n` entries, the earliest candidate with the smallest distance.
pub open spec fn best_candidate(
    lay: Seq<(PaneId, Rect)>,
    from: PaneId,
    src: Rect,
    dir: FocusDir,
    n: int,
) -> Option<int>
    decreases n,
{
    if n <= 0 {
        None
    } else {
        let prev = best_candidate(lay, from, src, dir, n - 1);
        if is_candidate(lay, from, src, dir, n - 1) {
            match prev {
                None => Some(n - 1),
                Some(b) => if nav_dist(lay[n - 1].1, src, dir) < nav_dist(lay[b].1, src, dir) {
                    Some(n - 1)
                } else {
                    prev
                },
            }
        } else {
            prev
        }
    }
}

proof fn lemma_best_candidate(
    lay: Seq<(PaneId, Rect)>,
    from: PaneId,
    src: Rect,
    dir: FocusDir,
    n: int,
)
    requires
        0 <= n <= lay.len(),
    ensures
        best_candidate(lay, from, src, dir, n) is None <==> forall|j: int|
            0 <= j < n ==> !#[trigger] is_candidate(lay, from, src, dir, j),
        best_candidate(lay, from, src, dir, n) matches Some(b) ==> {
            &&& 0 <= b < n
            &&& is_candidate(lay, from, src, dir, b)
            &&& forall|j: int|
                0 <= j < n && #[trigger] is_candidate(lay, from, src, dir, j) ==> nav_dist(
                    lay[b].1,
                    src,
                    dir,
                ) <= nav_dist(lay[j].1, src, dir)
            &&& forall|j: int|
                0 <= j < b && #[trigger] is_candidate(lay, from, src, dir, j) ==> nav_dist(
                    lay[b].1,
                    src,
                    dir,
                ) < nav_dist(lay[j].1, src, dir)
        },
    decreases n,
{
    if n > 0 {
        lemma_best_candidate(lay, from, src, dir, n - 1);
    }
}

/// The pane `neighbor` picks: the nearest other pane wholly in direction `dir`
/// of the first region of `from` in `lay`.
pub open spec fn spec_neighbor(lay: Seq<(PaneId, Rect)>, from: PaneId, dir: FocusDir) -> Option<PaneId> {
    match first_index(lay.map_values(|e: (PaneId, Rect)| e.0), from) {
        None => None,
        Some(s) => match best_candidate(lay, from, lay[s].1, dir, lay.len() as int) {
            None => None,
            Some(b) => Some(lay[b].0),
        },
    }
}

/// The split tree of one tab; empty once its last pane closes.
#[derive(Debug)]
pub struct SplitTree {
    root: Option<Node>,
}

/// Root of the square used for spatial navigation.
pub open spec fn nav_square() -> Rect {
    Rect { x: 0, y: 0, w: NAV_UNIT, h: NAV_UNIT }
}

impl SplitTree {
    /// The root node (`None` for an empty tree).
    pub closed spec fn root_node(&self) -> Option<Node> {
        self.root
    }

    /// All panes in pre-order.
    pub open spec fn pane_seq(&self) -> Seq<PaneId> {
        opt_leaves(self.root_node())
    }

    /// Number of dividers.
    pub open spec fn divider_count(&self) -> nat {
        opt_split_count(self.root_node())
    }

    /// Pane regions when the tree occupies `viewport`.
    pub open spec fn layout_of(&self, viewport: Rect) -> Seq<(PaneId, Rect)> {
        match self.root_node() {
            Some(r) => spec_layout(r, viewport),
            None => seq![],
        }
    }

    /// Dividers when the tree occupies `viewport`.
    pub open spec fn dividers_of(&self, viewport: Rect) -> Seq<Divider> {
        match self.root_node() {
            Some(r) => spec_dividers(r, viewport, 0),
            None => seq![],
        }
    }

    /// An empty tree.
    pub fn empty() -> (t: SplitTree)
        ensures
            t.root_node() is None,
    {
        SplitTree { root: None }
    }

    /// The tree rooted at `root` (one restored from a saved session).
    pub fn from_root(root: Option<Node>) -> (t: SplitTree)
        ensures
            t.root_node() == root,
    {
        SplitTree { root }
    }

    /// A tree with a single pane.
    pub fn single(pane: PaneId) -> (t: SplitTree)
        ensures
            t.root_node() == Some(Node::Leaf(pane)),
            t.pane_seq() == seq![pane],
            t.divider_count() == 0,
    {
        let t = SplitTree { root: Some(Node::Leaf(pane)) };
        assert(t.pane_seq() =~= seq![pane]);
        t
    }

    pub fn is_empty(&self) -> (b: bool)
        ensures
            b == self.root_node() is None,
            b == (self.pane_seq().len() == 0),
    {
        proof {
            if self.root is Some {
                lemma_leaves_nonempty(self.root->0);
            }
        }
        self.root.is_none()
    }

    pub fn root(&self) -> (r: Option<&Node>)
        ensures
            match self.root_node() {
                Some(n) => r matches Some(m) && *m == n,
                None => r is None,
            },
    {
        match &self.root {
            Some(n) => Some(n),
            None => None,
        }
    }

    /// All panes, left-to-right / top-to-bottom (tree pre-order).
    pub fn leaves(&self) -> (v: Vec<PaneId>)
        ensures
            v@ == self.pane_seq(),
    {
        let mut out = Vec::new();
        if let Some(root) = &self.root {
            root.collect_leaves(&mut out);
        }
        assert(out@ =~= self.pane_seq());
        out
    }

    pub fn contains(&self, pane: PaneId) -> (b: bool)
        ensures
            b == self.pane_seq().contains(pane),
    {
        match &self.root {
            Some(r) => r.contains(pane),
            None => false,
        }
    }

    pub fn first_leaf(&self) -> (r: Option<PaneId>)
        ensures
            r == (if self.pane_seq().len() == 0 {
                None
            } else {
                Some(self.pane_seq()[0])
            }),
    {
        let v = self.leaves();
        if v.len() == 0 {
            None
        } else {
            Some(v[0])
        }
    }

    /// Split `target` into two, inserting `new_pane` (as the first child when
    /// `before`, else the second) with an even ratio. Returns whether the
    /// split happened, which is whether `target` is in the tree.
    pub fn split(&mut self, target: PaneId, new_pane: PaneId, orientation: Orientation, before: bool) -> (b: bool)
        ensures
            final(self).root_node() == (match old(self).root_node() {
                Some(r) => Some(spec_split(r, target, new_pane, orientation, before).0),
                None => None,
            }),
            b == old(self).pane_seq().contains(target),
            !b ==> final(self).root_node() == old(self).root_node(),
            b ==> final(self).pane_seq() == splice(
                old(self).pane_seq(),
                first_index(old(self).pane_seq(), target)->0,
                split_pair(target, new_pane, before),
            ),
            final(self).divider_count() == old(self).divider_count() + (if b {
                1nat
            } else {
                0nat
            }),
    {
        match self.root.take() {
            None => false,
            Some(root) => {
                proof {
                    lemma_split_leaves(root, target, new_pane, orientation, before);
                }
                let (n, found) = split_node(root, target, new_pane, orientation, before);
                self.root = Some(n);
                found
            },
        }
    }

    /// Remove `pane`; its sibling takes its parent's place. Returns whether
    /// the pane was found.
    pub fn close(&mut self, pane: PaneId) -> (b: bool)
        ensures
            b == old(self).pane_seq().contains(pane),
            !b ==> final(self).root_node() == old(self).root_node(),
            b ==> final(self).root_node() == spec_close(old(self).root_node()->0, pane)->0,
            b ==> final(self).pane_seq() == old(self).pane_seq().remove(
                first_index(old(self).pane_seq(), pane)->0,
            ),
    {
        match self.root.take() {
            None => false,
            Some(root) => {
                proof {
                    lemma_close_leaves(root, pane);
                }
                match close_node(root, pane) {
                    CloseResult::NotFound(node) => {
                        self.root = Some(node);
                        false
                    },
                    CloseResult::Removed(maybe_node) => {
                        self.root = maybe_node;
                        true
                    },
                }
            },
        }
    }

    /// Set the ratio of the split that directly parents `pane`, clamped to
    /// `[RATIO_MIN, RATIO_MAX]`. Returns whether such a split exists.
    pub fn set_ratio_for(&mut self, pane: PaneId, ratio: u32) -> (b: bool)
        ensures
            ({
                let r = clamp_ratio(ratio);
                match old(self).root_node() {
                    Some(n) => final(self).root_node() == Some(spec_set_parent_ratio(n, pane, r).0)
                        && b == spec_set_parent_ratio(n, pane, r).1,
                    None => final(self).root_node() is None && !b,
                }
            }),
            final(self).pane_seq() == old(self).pane_seq(),
            final(self).divider_count() == old(self).divider_count(),
    {
        let ratio = if ratio < RATIO_MIN {
            RATIO_MIN
        } else if ratio > RATIO_MAX {
            RATIO_MAX
        } else {
            ratio
        };
        match self.root.take() {
            None => false,
            Some(root) => {
                proof {
                    lemma_set_parent_ratio(root, pane, ratio);
                }
                let (n, found) = set_ratio_node(root, pane, ratio);
                self.root = Some(n);
                found
            },
        }
    }

    /// Reset every divider to an even split. Leaves are unaffected.
    pub fn equalize(&mut self)
        ensures
            final(self).root_node() == (match old(self).root_node() {
                Some(n) => Some(spec_equalize(n)),
                None => None,
            }),
            final(self).pane_seq() == old(self).pane_seq(),
            final(self).divider_count() == old(self).divider_count(),
    {
        match self.root.take() {
            None => {},
            Some(root) => {
                proof {
                    lemma_equalize(root);
                }
                self.root = Some(equalize_node(root));
            },
        }
    }

    /// The dividers within `viewport`, in pre-order over split nodes.
    pub fn dividers(&self, viewport: Rect) -> (v: Vec<Divider>)
        requires
            viewport.fits(),
        ensures
            v@ == self.dividers_of(viewport),
            v@.len() == self.divider_count(),
            forall|i: int| 0 <= i < v@.len() ==> (#[trigger] v@[i]).split_index == i,
    {
        let mut out = Vec::new();
        if let Some(root) = &self.root {
            collect_dividers(root, viewport, &mut out);
            proof {
                lemma_dividers(*root, viewport, 0);
            }
        }
        assert(out@ =~= self.dividers_of(viewport));
        let n = out.len();
        assert(n == out@.len());
        out
    }

    /// Set the ratio of split number `split_index` (pre-order, as numbered
    /// by [`SplitTree::dividers`]), clamped to `[RATIO_MIN, RATIO_MAX]`.
    /// Returns whether that split exists.
    pub fn set_ratio_by_index(&mut self, split_index: usize, ratio: u32) -> (b: bool)
        ensures
            b == (split_index < old(self).divider_count()),
            final(self).root_node() == (match old(self).root_node() {
                Some(n) => Some(spec_set_ratio_at(n, split_index as int, clamp_ratio(ratio))),
                None => None,
            }),
            !b ==> final(self).root_node() == old(self).root_node(),
            final(self).pane_seq() == old(self).pane_seq(),
            final(self).divider_count() == old(self).divider_count(),
    {
        let ratio = if ratio < RATIO_MIN {
            RATIO_MIN
        } else if ratio > RATIO_MAX {
            RATIO_MAX
        } else {
            ratio
        };
        match self.root.take() {
            None => false,
            Some(root) => {
                proof {
                    lemma_set_ratio_at(root, split_index as int, ratio);
                }
                let (n, res) = set_ratio_idx(root, split_index, ratio);
                self.root = Some(n);
                res.is_ok()
            },
        }
    }

    /// The region of every pane within `viewport`, in leaf order.
    pub fn layout(&self, viewport: Rect) -> (v: Vec<(PaneId, Rect)>)
        requires
            viewport.fits(),
        ensures
            v@ == self.layout_of(viewport),
            v@.map_values(|e: (PaneId, Rect)| e.0) == self.pane_seq(),
    {
        let mut out = Vec::new();
        if let Some(root) = &self.root {
            layout_node(root, viewport, &mut out);
            proof {
                lemma_layout_panes(*root, viewport);
            }
        }
        assert(out@ =~= self.layout_of(viewport));
        proof {
            if self.root_node() is None {
                assert(out@.map_values(|e: (PaneId, Rect)| e.0) =~= self.pane_seq());
            }
        }
        out
    }

    /// The pane spatially adjacent to `from` in `dir` in a square layout:
    /// among the other panes lying wholly that way, the one whose centre is
    /// nearest (primary axis counted double), the earliest on ties. `None`
    /// if `from` is not in the tree or no pane lies that way.
    pub fn neighbor(&self, from: PaneId, dir: FocusDir) -> (r: Option<PaneId>)
        ensures
            r == spec_neighbor(self.layout_of(nav_square()), from, dir),
    {
        let lay = self.layout(Rect::new(0, 0, NAV_UNIT, NAV_UNIT));
        let ghost l = lay@;
        let ghost ids = l.map_values(|e: (PaneId, Rect)| e.0);
        proof {
            lemma_first_index(ids, from);
        }
        let mut s: usize = 0;
        while s < lay.len()
            invariant
                s <= l.len(),
                l == lay@,
                ids == l.map_values(|e: (PaneId, Rect)| e.0),
                forall|j: int| 0 <= j < s ==> l[j].0 != from,
            ensures
                s <= l.len(),
                forall|j: int| 0 <= j < s ==> l[j].0 != from,
                s == l.len() || l[s as int].0 == from,
            decreases l.len() - s,
        {
            if lay[s].0 == from {
                break;
            }
            s = s + 1;
        }
        if s == lay.len() {
            proof {
                assert(!ids.contains(from)) by {
                    if ids.contains(from) {
                        let k = choose|k: int| 0 <= k < ids.len() && ids[k] == from;
                        assert(l[k].0 == from);
                    }
                }
            }
            return None;
        }
        proof {
            assert(ids[s as int] == l[s as int].0);
            assert(ids[s as int] == from);
            assert(first_index(ids, from) == Some(s as int)) by {
                let f = first_index(ids, from)->0;
                assert(ids[f] == l[f].0);
                assert(ids.contains(from));
            }
        }
        let src = lay[s].1;
        proof {
            lemma_layout_within_tree(self, nav_square());
        }
        let mut best: Option<usize> = None;
        let mut best_d: u64 = 0;
        let mut j: usize = 0;
        while j < lay.len()
            invariant
                j <= l.len(),
                l == lay@,
                src == l[s as int].1,
                s < l.len(),
                forall|k: int| 0 <= k < l.len() ==> rect_within((#[trigger] l[k]).1, nav_square()),
                match best_candidate(l, from, src, dir, j as int) {
                    None => best is None,
                    Some(b) => best == Some(b as usize) && best_d as int == nav_dist(l[b].1, src, dir),
                },
            decreases l.len() - j,
        {
            let r = lay[j].1;
            assert(rect_within(l[j as int].1, nav_square()));
            assert(rect_within(l[s as int].1, nav_square()));
            let cand = lay[j].0 != from && match dir {
                FocusDir::Left => r.x + r.w <= src.x,
                FocusDir::Right => r.x >= src.x + src.w,
                FocusDir::Up => r.y + r.h <= src.y,
                FocusDir::Down => r.y >= src.y + src.h,
            };
            if cand {
                let cx = 2 * r.x + r.w;
                let cy = 2 * r.y + r.h;
                let sx = 2 * src.x + src.w;
                let sy = 2 * src.y + src.h;
                let dx = if cx >= sx {
                    cx - sx
                } else {
                    sx - cx
                };
                let dy = if cy >= sy {
                    cy - sy
                } else {
                    sy - cy
                };
                let d = match dir {
                    FocusDir::Left | FocusDir::Right => 2 * dx + dy,
                    FocusDir::Up | FocusDir::Down => 2 * dy + dx,
                };
                match best {
                    None => {
                        best = Some(j);
                        best_d = d;
                    },
                    Some(_) => {
                        if d < best_d {
                            best = Some(j);
                            best_d = d;
                        }
                    },
                }
            }
            j = j + 1;
        }
        proof {
            lemma_best_candidate(l, from, src, dir, l.len() as int);
        }
        match best {
            Some(b) => Some(lay[b].0),
            None => None,
        }
    }

    /// Exchange the positions of panes `a` and `b`. Returns `false` (and
    /// changes nothing) unless both are in the tree.
    pub fn swap(&mut self, a: PaneId, b: PaneId) -> (ok: bool)
        ensures
            ok == (old(self).pane_seq().contains(a) && old(self).pane_seq().contains(b)),
            !ok ==> final(self).root_node() == old(self).root_node(),
            ok ==> final(self).root_node() == Some(spec_swap(old(self).root_node()->0, a, b)),
            ok ==> final(self).pane_seq() == old(self).pane_seq().map_values(
                |p: PaneId| swap_label(p, a, b),
            ),
            final(self).divider_count() == old(self).divider_count(),
    {
        if !self.contains(a) || !self.contains(b) {
            return false;
        }
        match self.root.take() {
            None => false,
            Some(root) => {
                proof {
                    lemma_swap_leaves(root, a, b);
                }
                self.root = Some(swap_node(root, a, b));
                true
            },
        }
    }
}

/// A requested ratio clamped to `[RATIO_MIN, RATIO_MAX]`.
pub open spec fn clamp_ratio(r: u32) -> u32 {
    if r < RATIO_MIN {
        RATIO_MIN
    } else if r > RATIO_MAX {
        RATIO_MAX
    } else {
        r
    }
}

/// `inner` lies within `outer`.
pub open spec fn rect_within(inner: Rect, outer: Rect) -> bool {
    &&& outer.x <= inner.x
    &&& inner.x + inner.w <= outer.x + outer.w
    &&& outer.y <= inner.y
    &&& inner.y + inner.h <= outer.y + outer.h
}

proof fn lemma_layout_within(node: Node, rect: Rect)
    requires
        rect.fits(),
    ensures
        forall|k: int|
            0 <= k < spec_layout(node, rect).len() ==> rect_within(
                (#[trigger] spec_layout(node, rect)[k]).1,
                rect,
            ),
    decreases node,
{
    match node {
        Node::Leaf(p) => {},
        Node::Split { orientation, ratio, first, second } => {
            let (r1, r2) = child_rects(rect, orientation, ratio);
            lemma_first_extent(rect.w, ratio);
            lemma_first_extent(rect.h, ratio);
            lemma_layout_within(*first, r1);
            lemma_layout_within(*second, r2);
            let l1 = spec_layout(*first, r1);
            let l2 = spec_layout(*second, r2);
            assert forall|k: int| 0 <= k < spec_layout(node, rect).len() implies rect_within(
                (#[trigger] spec_layout(node, rect)[k]).1,
                rect,
            ) by {
                if k < l1.len() {
                    assert(spec_layout(node, rect)[k] == l1[k]);
                } else {
                    assert(spec_layout(node, rect)[k] == l2[k - l1.len()]);
                }
            }
        },
    }
}

proof fn lemma_layout_within_tree(t: &SplitTree, rect: Rect)
    requires
        rect.fits(),
    ensures
        forall|k: int|
            0 <= k < t.layout_of(rect).len() ==> rect_within(
                (#[trigger] t.layout_of(rect)[k]).1,
                rect,
            ),
{
    if t.root_node() is Some {
        lemma_layout_within(t.root_node()->0, rect);
    }
}

proof fn lemma_leaves_nonempty(n: Node)
    ensures
        n.leaves().len() > 0,
    decreases n,
{
    match n {
        Node::Leaf(_) => {},
        Node::Split { first, second, .. } => {
            lemma_leaves_nonempty(*first);
        },
    }
}

/// Splitting a pane and then closing the new pane gives back the tree as it
/// was, ratios included, provided the new pane was not already there.
pub proof fn law_split_then_close_restores(
    node: Node,
    target: PaneId,
    new_pane: PaneId,
    orientation: Orientation,
    before: bool,
)
    requires
        node.leaves().contains(target),
        !node.leaves().contains(new_pane),
    ensures
        spec_split(node, target, new_pane, orientation, before).1,
        spec_close(spec_split(node, target, new_pane, orientation, before).0, new_pane) == Some(
            Some(node),
        ),
    decreases node,
{
    lemma_split_leaves(node, target, new_pane, orientation, before);
    match node {
        Node::Leaf(p) => {
            assert(node.leaves() =~= seq![p]);
            assert(node.leaves()[0] == p);
            assert(p == target && p != new_pane);
            assert(spec_close(Node::Leaf(new_pane), new_pane) == Some(None::<Node>));
            assert(spec_close(Node::Leaf(p), new_pane) is None);
        },
        Node::Split { orientation: o, ratio, first, second } => {
            lemma_concat_contains(first.leaves(), second.leaves(), new_pane);
            lemma_concat_contains(first.leaves(), second.leaves(), target);
            lemma_split_leaves(*first, target, new_pane, orientation, before);
            if first.leaves().contains(target) {
                law_split_then_close_restores(*first, target, new_pane, orientation, before);
            } else {
                lemma_close_leaves(*first, new_pane);
                law_split_then_close_restores(*second, target, new_pane, orientation, before);
            }
        },
    }
}

/// A tree always has one divider fewer than it has panes.
pub proof fn law_dividers_one_fewer_than_panes(node: Node)
    ensures
        node.split_count() + 1 == node.leaves().len(),
    decreases node,
{
    match node {
        Node::Leaf(_) => {},
        Node::Split { first, second, .. } => {
            law_dividers_one_fewer_than_panes(*first);
            law_dividers_one_fewer_than_panes(*second);
        },
    }
}

/// Equalizing twice is the same as equalizing once.
pub proof fn law_equalize_idempotent(node: Node)
    ensures
        spec_equalize(spec_equalize(node)) == spec_equalize(node),
    decreases node,
{
    match node {
        Node::Leaf(_) => {},
        Node::Split { first, second, .. } => {
            law_equalize_idempotent(*first);
            law_equalize_idempotent(*second);
        },
    }
}

/// Swapping the same two panes twice gives back the original tree.
pub proof fn law_swap_twice_restores(node: Node, a: PaneId, b: PaneId)
    ensures
        spec_swap(spec_swap(node, a, b), a, b) == node,
    decreases node,
{
    match node {
        Node::Leaf(p) => {},
        Node::Split { first, second, .. } => {
            law_swap_twice_restores(*first, a, b);
            law_swap_twice_restores(*second, a, b);
        },
    }
}

/// Total area of the regions of a layout.
pub open spec fn layout_area(lay: Seq<(PaneId, Rect)>) -> nat
    decreases lay.len(),
{
    if lay.len() == 0 {
        0
    } else {
        layout_area(lay.drop_last()) + (lay.last().1.w as nat) * (lay.last().1.h as nat)
    }
}

proof fn lemma_layout_area_concat(a: Seq<(PaneId, Rect)>, b: Seq<(PaneId, Rect)>)
    ensures
        layout_area(a + b) == layout_area(a) + layout_area(b),
    decreases b.len(),
{
    if b.len() > 0 {
        assert((a + b).drop_last() =~= a + b.drop_last());
        lemma_layout_area_concat(a, b.drop_last());
    } else {
        assert(a + b =~= a);
    }
}

/// The pane regions of a layout lie within the viewport and together cover
/// exactly its area: the panes tile the viewport.
pub proof fn law_layout_tiles_viewport(node: Node, rect: Rect)
    requires
        rect.fits(),
    ensures
        forall|k: int|
            0 <= k < spec_layout(node, rect).len() ==> rect_within(
                (#[trigger] spec_layout(node, rect)[k]).1,
                rect,
            ),
        layout_area(spec_layout(node, rect)) == (rect.w as nat) * (rect.h as nat),
    decreases node,
{
    lemma_layout_within(node, rect);
    match node {
        Node::Leaf(p) => {
            assert(spec_layout(node, rect).drop_last() =~= seq![]);
            assert(layout_area(spec_layout(node, rect).drop_last()) == 0);
        },
        Node::Split { orientation, ratio, first, second } => {
            let (r1, r2) = child_rects(rect, orientation, ratio);
            lemma_first_extent(rect.w, ratio);
            lemma_first_extent(rect.h, ratio);
            law_layout_tiles_viewport(*first, r1);
            law_layout_tiles_viewport(*second, r2);
            lemma_layout_area_concat(spec_layout(*first, r1), spec_layout(*second, r2));
            match orientation {
                Orientation::Horizontal => {
                    let fw = first_extent(rect.w, ratio) as int;
                    let w = rect.w as int;
                    let h = rect.h as int;
                    assert(fw * h + (w - fw) * h == w * h) by (nonlinear_arith);
                },
                Orientation::Vertical => {
                    let fh = first_extent(rect.h, ratio) as int;
                    let w = rect.w as int;
                    let h = rect.h as int;
                    assert(w * fh + w * (h - fh) == w * h) by (nonlinear_arith);
                },
            }
        },
    }
}


/// Moving focus in a direction only ever lands on another pane lying wholly
/// that way of the pane focus leaves (left: ending at or before its left
/// edge; right: starting at or after its right edge; up: ending at or above
/// its top; down: starting at or below its bottom), and it finds one
/// whenever such a pane exists.
pub proof fn law_neighbor_lies_that_way(lay: Seq<(PaneId, Rect)>, from: PaneId, dir: FocusDir)
    ensures
        match spec_neighbor(lay, from, dir) {
            Some(p) => exists|s: int, j: int|
                #![trigger lay[s], lay[j]]
                {
                    &&& 0 <= s < lay.len() && lay[s].0 == from
                    &&& 0 <= j < lay.len() && lay[j].0 == p && p != from
                    &&& match dir {
                        FocusDir::Left => lay[j].1.x + lay[j].1.w <= lay[s].1.x,
                        FocusDir::Right => lay[j].1.x >= lay[s].1.x + lay[s].1.w,
                        FocusDir::Up => lay[j].1.y + lay[j].1.h <= lay[s].1.y,
                        FocusDir::Down => lay[j].1.y >= lay[s].1.y + lay[s].1.h,
                    }
                },
            None => forall|s: int, j: int|
                #![trigger lay[s], lay[j]]
                0 <= s < lay.len() && lay[s].0 == from && (forall|k: int| 0 <= k < s ==> lay[k].0 != from)
                    && 0 <= j < lay.len() && lay[j].0 != from ==> !(match dir {
                    FocusDir::Left => lay[j].1.x + lay[j].1.w <= lay[s].1.x,
                    FocusDir::Right => lay[j].1.x >= lay[s].1.x + lay[s].1.w,
                    FocusDir::Up => lay[j].1.y + lay[j].1.h <= lay[s].1.y,
                    FocusDir::Down => lay[j].1.y >= lay[s].1.y + lay[s].1.h,
                }),
        },
{
    let ids = lay.map_values(|e: (PaneId, Rect)| e.0);
    lemma_first_index(ids, from);
    match first_index(ids, from) {
        None => {
            assert forall|s: int, j: int|
                #![trigger lay[s], lay[j]]
                0 <= s < lay.len() && lay[s].0 == from && (forall|k: int| 0 <= k < s ==> lay[k].0 != from)
                    && 0 <= j < lay.len() && lay[j].0 != from implies !(match dir {
                    FocusDir::Left => lay[j].1.x + lay[j].1.w <= lay[s].1.x,
                    FocusDir::Right => lay[j].1.x >= lay[s].1.x + lay[s].1.w,
                    FocusDir::Up => lay[j].1.y + lay[j].1.h <= lay[s].1.y,
                    FocusDir::Down => lay[j].1.y >= lay[s].1.y + lay[s].1.h,
                }) by {
                assert(ids[s] == from);
            }
        },
        Some(s0) => {
            let src = lay[s0].1;
            lemma_best_candidate(lay, from, src, dir, lay.len() as int);
            assert(lay[s0].0 == from) by {
                assert(ids[s0] == lay[s0].0);
            }
            match best_candidate(lay, from, src, dir, lay.len() as int) {
                Some(b) => {
                    assert(is_candidate(lay, from, src, dir, b));
                    assert(lay[s0] == lay[s0] && lay[b] == lay[b]);
                },
                None => {
                    assert forall|s: int, j: int|
                        #![trigger lay[s], lay[j]]
                        0 <= s < lay.len() && lay[s].0 == from && (forall|k: int| 0 <= k < s ==> lay[k].0 != from)
                            && 0 <= j < lay.len() && lay[j].0 != from implies !(match dir {
                            FocusDir::Left => lay[j].1.x + lay[j].1.w <= lay[s].1.x,
                            FocusDir::Right => lay[j].1.x >= lay[s].1.x + lay[s].1.w,
                            FocusDir::Up => lay[j].1.y + lay[j].1.h <= lay[s].1.y,
                            FocusDir::Down => lay[j].1.y >= lay[s].1.y + lay[s].1.h,
                        }) by {
                        if s < s0 {
                            assert(ids[s] == lay[s].0);
                        } else if s > s0 {
                            assert(lay[s0].0 != from);
                        }
                        assert(!is_candidate(lay, from, src, dir, j));
                    }
                },
            }
        },
    }
}


/// `r` ends at or before the left edge of `src` (left), starts at or after
/// its right edge (right), ends at or above its top (up), or starts at or
/// below its bottom (down).
pub open spec fn wholly_beyond(r: Rect, src: Rect, dir: FocusDir) -> bool {
    match dir {
        FocusDir::Up => r.y + r.h <= src.y,
        FocusDir::Down => src.y + src.h <= r.y,
        FocusDir::Left => r.x + r.w <= src.x,
        FocusDir::Right => src.x + src.w <= r.x,
    }
}

/// The pane focus moves to is, among the other panes wholly that way, one
/// whose centre is nearest (primary axis counted double): no such pane is
/// strictly nearer.
pub proof fn law_neighbor_is_nearest(lay: Seq<(PaneId, Rect)>, from: PaneId, dir: FocusDir)
    ensures
        spec_neighbor(lay, from, dir) matches Some(p) ==> exists|s: int, j: int|
            #![trigger lay[s], lay[j]]
            {
                &&& 0 <= s < lay.len() && lay[s].0 == from
                &&& 0 <= j < lay.len() && lay[j].0 == p
                &&& wholly_beyond(lay[j].1, lay[s].1, dir)
                &&& forall|k: int|
                    0 <= k < lay.len() && lay[k].0 != from && wholly_beyond(#[trigger] lay[k].1, lay[s].1, dir)
                        ==> nav_dist(lay[j].1, lay[s].1, dir) <= nav_dist(lay[k].1, lay[s].1, dir)
            },
{
    let ids = lay.map_values(|e: (PaneId, Rect)| e.0);
    lemma_first_index(ids, from);
    if let Some(s0) = first_index(ids, from) {
        let src = lay[s0].1;
        lemma_best_candidate(lay, from, src, dir, lay.len() as int);
        assert(lay[s0].0 == from) by {
            assert(ids[s0] == lay[s0].0);
        }
        if let Some(b) = best_candidate(lay, from, src, dir, lay.len() as int) {
            assert forall|k: int|
                0 <= k < lay.len() && lay[k].0 != from && wholly_beyond(#[trigger] lay[k].1, src, dir)
                    implies nav_dist(lay[b].1, src, dir) <= nav_dist(lay[k].1, src, dir) by {
                assert(is_candidate(lay, from, src, dir, k));
            }
            assert(lay[s0] == lay[s0] && lay[b] == lay[b]);
        }
    }
}

} // verus!
