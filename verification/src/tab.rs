//! A named top-level tab holding its own group of children.

use vstd::prelude::*;

use crate::branch::Branch;
use crate::tree::{tree_wf, Tree};

verus! {

/// A named tab: a title and the group it displays.
pub struct Tab {
    pub name: String,
    pub tree: Tree,
}

impl Tab {
    pub fn new(name: &str) -> (r: Tab)
        ensures
            r.name@ == name@,
            r.tree.branches.entries@.len() == 0,
            tree_wf(r.tree),
    {
        Tab { name: name.to_owned(), tree: Tree::new_empty() }
    }

    /// The tab's title.
    pub fn get_name(&self) -> (r: String)
        ensures
            r@ == self.name@,
    {
        self.name.clone()
    }

    /// The tab's group.
    pub fn get_tree(&self) -> (r: &Tree)
        ensures
            *r == self.tree,
    {
        &self.tree
    }

    /// Builder: add (or replace) a named child of the tab's group.
    pub fn branch(self, branch_name: String, branch: Branch) -> (r: Tab)
        ensures
            r.name == self.name,
            ({
                let i = self.tree.branches.key_find(branch_name@);
                if i >= 0 {
                    r.tree.branches.entries@ == self.tree.branches.entries@.update(
                        i,
                        (self.tree.branches.entries@[i].0, branch),
                    )
                } else {
                    r.tree.branches.entries@ == self.tree.branches.entries@.push(
                        (branch_name, branch),
                    )
                }
            }),
    {
        Tab { name: self.name, tree: self.tree.branch(branch_name, branch) }
    }
}

} // verus!
