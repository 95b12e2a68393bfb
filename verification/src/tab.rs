//! A tab: a titled split tree of panes, one entry in the vertical sidebar.

use vstd::prelude::*;
use crate::ids::{PaneId, TabId};
use crate::split::{Node, SplitTree};

verus! {

#[derive(Debug)]
pub struct Tab {
    pub id: TabId,
    pub title: String,
    pub tree: SplitTree,
    /// The focused pane within this tab.
    pub focused: Option<PaneId>,
    /// The pane the tab is zoomed (maximized) to, if any.
    pub zoomed: Option<PaneId>,
}

impl Tab {
    /// A tab holding the single pane `root_pane`, focused.
    pub fn new(id: TabId, title: String, root_pane: PaneId) -> (t: Tab)
        ensures
            t.id == id,
            t.title == title,
            t.tree.root_node() == Some(Node::Leaf(root_pane)),
            t.tree.pane_seq() == seq![root_pane],
            t.focused == Some(root_pane),
            t.zoomed is None,
    {
        Tab { id, title, tree: SplitTree::single(root_pane), focused: Some(root_pane), zoomed: None }
    }

    pub fn panes(&self) -> (v: Vec<PaneId>)
        ensures
            v@ == self.tree.pane_seq(),
    {
        self.tree.leaves()
    }

    pub fn is_empty(&self) -> (b: bool)
        ensures
            b == (self.tree.pane_seq().len() == 0),
    {
        self.tree.is_empty()
    }
}

} // verus!
