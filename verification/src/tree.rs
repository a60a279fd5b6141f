//! Ordered name-to-child maps: insertion order is display and navigation
//! order, and keys are unique.

use vstd::prelude::*;

use crate::branch::{branch_equiv, branch_wf, Branch};
use crate::labels::{find_idx, lemma_find_idx, lemma_find_idx_of, str_eq};

verus! {

/// An ordered map from names to children, in insertion order.
pub struct Branches {
    pub entries: Vec<(String, Branch)>,
}

/// An ordered container of named children: the group of the form tree.
pub struct Tree {
    pub branches: Branches,
}

impl Branches {
    /// The keys, in order.
    pub open spec fn keys(&self) -> Seq<Seq<char>> {
        Seq::new(self.entries@.len(), |i: int| self.entries@[i].0@)
    }

    /// The index of `name` among the keys, or `-1`.
    pub open spec fn key_find(&self, name: Seq<char>) -> int {
        find_idx(self.keys(), name)
    }

    /// The child stored under `name`, if any.
    pub open spec fn get_spec(&self, name: Seq<char>) -> Option<Branch> {
        let i = self.key_find(name);
        if i < 0 {
            None
        } else {
            Some(self.entries@[i].1)
        }
    }

    pub fn new() -> (r: Branches)
        ensures
            r.entries@.len() == 0,
    {
        Branches { entries: Vec::new() }
    }

    pub fn len(&self) -> (r: usize)
        ensures
            r == self.entries@.len(),
    {
        self.entries.len()
    }

    pub fn is_empty(&self) -> (r: bool)
        ensures
            r == (self.entries@.len() == 0),
    {
        self.entries.len() == 0
    }

    /// The position of `name` among the keys.
    pub fn index_of(&self, name: &str) -> (r: Option<usize>)
        ensures
            match r {
                Some(i) => i == self.key_find(name@),
                None => self.key_find(name@) == -1,
            },
    {
        let n = self.entries.len();
        let mut i: usize = 0;
        while i < n
            invariant
                i <= n,
                n == self.entries@.len(),
                forall|j: int| 0 <= j < i ==> self.keys()[j] != name@,
            decreases n - i,
        {
            if str_eq(self.entries[i].0.as_str(), name) {
                proof {
                    lemma_find_idx_of(self.keys(), name@, i as int);
                }
                return Some(i);
            }
            i = i + 1;
        }
        proof {
            lemma_find_idx_of(self.keys(), name@, n as int);
        }
        None
    }

    pub fn key_at(&self, i: usize) -> (r: &String)
        requires
            i < self.entries@.len(),
        ensures
            *r == self.entries@[i as int].0,
    {
        &self.entries[i].0
    }

    pub fn branch_at(&self, i: usize) -> (r: &Branch)
        requires
            i < self.entries@.len(),
        ensures
            *r == self.entries@[i as int].1,
    {
        &self.entries[i].1
    }

    /// The child stored under `name`, if any.
    pub fn get(&self, name: &str) -> (r: Option<&Branch>)
        ensures
            match r {
                Some(b) => self.get_spec(name@) == Some(*b),
                None => self.get_spec(name@) is None,
            },
    {
        match self.index_of(name) {
            Some(i) => {
                proof {
                    lemma_find_idx(self.keys(), name@);
                }
                Some(&self.entries[i].1)
            },
            None => None,
        }
    }

    /// Insert under `name`: replaces the child in place when the key is
    /// present (keeping its position and key string), else appends.
    pub fn insert(&mut self, name: String, b: Branch)
        ensures
            ({
                let i = old(self).key_find(name@);
                if i >= 0 {
                    final(self).entries@ == old(self).entries@.update(
                        i,
                        (old(self).entries@[i].0, b),
                    )
                } else {
                    final(self).entries@ == old(self).entries@.push((name, b))
                }
            }),
    {
        proof {
            lemma_find_idx(self.keys(), name@);
        }
        match self.index_of(name.as_str()) {
            Some(i) => {
                let pair = self.entries.remove(i);
                self.entries.insert(i, (pair.0, b));
                proof {
                    assert(self.entries@ =~= old(self).entries@.update(
                        i as int,
                        (old(self).entries@[i as int].0, b),
                    ));
                }
            },
            None => {
                self.entries.push((name, b));
            },
        }
    }

    /// Remove the entry under `name`, returning its child; order of the
    /// remaining entries is kept.
    pub fn remove(&mut self, name: &str) -> (r: Option<Branch>)
        ensures
            ({
                let i = old(self).key_find(name@);
                if i >= 0 {
                    final(self).entries@ == old(self).entries@.remove(i) && r == Some(
                        old(self).entries@[i].1,
                    )
                } else {
                    final(self).entries@ == old(self).entries@ && r is None
                }
            }),
    {
        match self.index_of(name) {
            Some(i) => {
                proof {
                    lemma_find_idx(self.keys(), name@);
                }
                let pair = self.entries.remove(i);
                Some(pair.1)
            },
            None => None,
        }
    }

    /// Take the entry at position `i` out.
    pub fn take_at(&mut self, i: usize) -> (r: (String, Branch))
        requires
            i < old(self).entries@.len(),
        ensures
            r == old(self).entries@[i as int],
            final(self).entries@ == old(self).entries@.remove(i as int),
    {
        self.entries.remove(i)
    }

    /// Put an entry back at position `i`.
    pub fn put_at(&mut self, i: usize, name: String, b: Branch)
        requires
            i <= old(self).entries@.len(),
        ensures
            final(self).entries@ == old(self).entries@.insert(i as int, (name, b)),
    {
        self.entries.insert(i, (name, b));
    }

    /// The keys, as owned strings.
    pub fn key_list(&self) -> (r: Vec<String>)
        ensures
            crate::labels::str_views(r@) == self.keys(),
    {
        let mut r: Vec<String> = Vec::new();
        let mut i: usize = 0;
        while i < self.entries.len()
            invariant
                i <= self.entries@.len(),
                r@.len() == i,
                forall|j: int| 0 <= j < i ==> r@[j]@ == self.entries@[j].0@,
            decreases self.entries@.len() - i,
        {
            r.push(self.entries[i].0.clone());
            i = i + 1;
        }
        proof {
            assert(crate::labels::str_views(r@) =~= self.keys());
        }
        r
    }

    /// A deep copy, equal up to string identity.
    pub fn duplicate(&self) -> (r: Branches)
        ensures
            branches_equiv(r, *self),
            branches_wf(*self) ==> branches_wf(r),
        decreases self,
    {
        let mut entries: Vec<(String, Branch)> = Vec::new();
        let mut i: usize = 0;
        while i < self.entries.len()
            invariant
                i <= self.entries@.len(),
                entries@.len() == i,
                forall|j: int| #![all_triggers] 0 <= j < i ==> entries@[j].0@
                    == self.entries@[j].0@ && branch_equiv(entries@[j].1, self.entries@[j].1) && (
                branch_wf(self.entries@[j].1) ==> branch_wf(entries@[j].1)),
            decreases self.entries@.len() - i,
        {
            let name = self.entries[i].0.clone();
            let b = self.entries[i].1.duplicate();
            entries.push((name, b));
            i = i + 1;
        }
        let r = Branches { entries };
        proof {
            assert(r.keys() =~= self.keys());
        }
        r
    }
}

/// Deep structural equality of two ordered maps.
pub open spec fn branches_equiv(a: Branches, b: Branches) -> bool
    decreases a,
{
    a.entries@.len() == b.entries@.len() && a.keys() == b.keys() && forall|i: int|
        0 <= i < a.entries@.len() ==> branch_equiv(
            #[trigger] a.entries@[i].1,
            b.entries@[i].1,
        )
}

/// Well-formedness: keys are pairwise distinct and every child is well
/// formed.
pub open spec fn branches_wf(b: Branches) -> bool
    decreases b,
{
    &&& forall|i: int, j: int|
        0 <= i < j < b.entries@.len() ==> b.keys()[i] != b.keys()[j]
    &&& forall|i: int| 0 <= i < b.entries@.len() ==> branch_wf(#[trigger] b.entries@[i].1)
}

/// Deep structural equality of two groups.
pub open spec fn tree_equiv(a: Tree, b: Tree) -> bool
    decreases a,
{
    branches_equiv(a.branches, b.branches)
}

/// Well-formedness of a group.
pub open spec fn tree_wf(t: Tree) -> bool
    decreases t,
{
    branches_wf(t.branches)
}

impl Default for Tree {
    /// A group with no children.
    fn default() -> (r: Tree)
        ensures
            r.branches.entries@.len() == 0,
            tree_wf(r),
    {
        Tree::new_empty()
    }
}

impl Tree {
    pub fn new_empty() -> (r: Tree)
        ensures
            r.branches.entries@.len() == 0,
            tree_wf(r),
    {
        Tree { branches: Branches::new() }
    }

    /// Builder: add (or replace) a named child.
    pub fn branch(self, branch_name: String, branch: Branch) -> (r: Tree)
        ensures
            ({
                let i = self.branches.key_find(branch_name@);
                if i >= 0 {
                    r.branches.entries@ == self.branches.entries@.update(
                        i,
                        (self.branches.entries@[i].0, branch),
                    )
                } else {
                    r.branches.entries@ == self.branches.entries@.push((branch_name, branch))
                }
            }),
    {
        let mut t = self;
        t.branches.insert(branch_name, branch);
        t
    }

    pub fn get_branches(&self) -> (r: &Branches)
        ensures
            *r == self.branches,
    {
        &self.branches
    }

    /// A deep copy, equal up to string identity.
    pub fn duplicate(&self) -> (r: Tree)
        ensures
            tree_equiv(r, *self),
            tree_wf(*self) ==> tree_wf(r),
        decreases self,
    {
        Tree { branches: self.branches.duplicate() }
    }
}

} // verus!
