//! The tagged union over grids, groups and collections, with the uniform
//! ordered label list the navigator walks.

use vstd::prelude::*;

use crate::args::{args_equiv, args_wf, Args};
use crate::array::{array_equiv, array_wf, Array};
use crate::labels::str_views;
use crate::tree::{tree_equiv, tree_wf, Tree};

verus! {

/// A child of a group or a grid cell: a grid of typed values, a named
/// group, or a dense collection.
pub enum Branch {
    Args(Args),
    Tree(Tree),
    Array(Array),
}

/// Deep structural equality of two children.
pub open spec fn branch_equiv(a: Branch, b: Branch) -> bool
    decreases a,
{
    match (a, b) {
        (Branch::Args(x), Branch::Args(y)) => args_equiv(x, y),
        (Branch::Tree(x), Branch::Tree(y)) => tree_equiv(x, y),
        (Branch::Array(x), Branch::Array(y)) => array_equiv(x, y),
        _ => false,
    }
}

/// Well-formedness of a child.
pub open spec fn branch_wf(b: Branch) -> bool
    decreases b,
{
    match b {
        Branch::Args(a) => args_wf(a),
        Branch::Tree(t) => tree_wf(t),
        Branch::Array(a) => array_wf(a),
    }
}

/// The ordered label list a child exposes to the navigator: row labels
/// for a grid, child names for a group or collection.
pub open spec fn list_of(b: Branch) -> Seq<Seq<char>> {
    match b {
        Branch::Args(a) => str_views(a.names@),
        Branch::Tree(t) => t.branches.keys(),
        Branch::Array(a) => a.tree.branches.keys(),
    }
}

impl Branch {
    pub fn is_args(&self) -> (r: bool)
        ensures
            r == (*self is Args),
    {
        matches!(self, Branch::Args(_))
    }

    pub fn is_tree(&self) -> (r: bool)
        ensures
            r == (*self is Tree),
    {
        matches!(self, Branch::Tree(_))
    }

    pub fn is_array(&self) -> (r: bool)
        ensures
            r == (*self is Array),
    {
        matches!(self, Branch::Array(_))
    }

    pub fn as_args(&self) -> (r: Option<&Args>)
        ensures
            match r {
                Some(a) => *self matches Branch::Args(x) && x == *a,
                None => !(*self is Args),
            },
    {
        match self {
            Branch::Args(a) => Some(a),
            _ => None,
        }
    }

    pub fn as_tree(&self) -> (r: Option<&Tree>)
        ensures
            match r {
                Some(t) => *self matches Branch::Tree(x) && x == *t,
                None => !(*self is Tree),
            },
    {
        match self {
            Branch::Tree(t) => Some(t),
            _ => None,
        }
    }

    pub fn as_array(&self) -> (r: Option<&Array>)
        ensures
            match r {
                Some(a) => *self matches Branch::Array(x) && x == *a,
                None => !(*self is Array),
            },
    {
        match self {
            Branch::Array(a) => Some(a),
            _ => None,
        }
    }

    /// The ordered label list, as owned strings.
    pub fn get_list(&self) -> (r: Vec<String>)
        ensures
            str_views(r@) == list_of(*self),
    {
        match self {
            Branch::Args(a) => clone_strings(&a.names),
            Branch::Tree(t) => t.branches.key_list(),
            Branch::Array(a) => a.tree.branches.key_list(),
        }
    }

    /// Whether the label list is empty.
    pub fn is_empty(&self) -> (r: bool)
        ensures
            r == (list_of(*self).len() == 0),
    {
        match self {
            Branch::Args(a) => a.names.len() == 0,
            Branch::Tree(t) => t.branches.len() == 0,
            Branch::Array(a) => a.tree.branches.len() == 0,
        }
    }

    /// A deep copy, equal up to string identity.
    pub fn duplicate(&self) -> (r: Branch)
        ensures
            branch_equiv(r, *self),
            branch_wf(*self) ==> branch_wf(r),
        decreases self,
    {
        match self {
            Branch::Args(a) => Branch::Args(a.duplicate()),
            Branch::Tree(t) => Branch::Tree(t.duplicate()),
            Branch::Array(a) => Branch::Array(
                Array { def: Box::new(a.def.duplicate()), tree: a.tree.duplicate() },
            ),
        }
    }
}

/// Element-wise copies of a string vector.
pub fn clone_strings(v: &Vec<String>) -> (r: Vec<String>)
    ensures
        str_views(r@) == str_views(v@),
{
    let mut r: Vec<String> = Vec::new();
    let mut i: usize = 0;
    while i < v.len()
        invariant
            i <= v@.len(),
            r@.len() == i,
            forall|j: int| 0 <= j < i ==> r@[j]@ == v@[j]@,
        decreases v@.len() - i,
    {
        r.push(v[i].clone());
        i = i + 1;
    }
    proof {
        assert(str_views(r@) =~= str_views(v@));
    }
    r
}

} // verus!
