//! The collection: a densely keyed, ordered sequence of grid-wrapped
//! elements with a template for synthesizing new defaults.

use vstd::prelude::*;

use crate::branch::{branch_equiv, Branch};
use crate::strconv::{dec_rep, dec_string};
use crate::tree::{tree_equiv, tree_wf, Branches, Tree};
use crate::value::{value_equiv, value_wf, Value, ValueVariant};

verus! {

/// A variable-length list backed by a group whose keys are the decimal
/// strings of a dense 0-based index; `def` is the template for new
/// elements.
pub struct Array {
    pub def: Box<Value>,
    pub tree: Tree,
}

/// The dense-key invariant: entry `j` is keyed by the decimal string of
/// `j`.
pub open spec fn dense_keys(b: Branches) -> bool {
    forall|j: int| 0 <= j < b.entries@.len() ==> b.keys()[j] == dec_rep(j)
}

/// Well-formedness: dense keys, a well-formed template, well-formed
/// elements.
pub open spec fn array_wf(a: Array) -> bool
    decreases a,
{
    dense_keys(a.tree.branches) && value_wf(*a.def) && tree_wf(a.tree)
}

/// Deep structural equality of two collections.
pub open spec fn array_equiv(a: Array, b: Array) -> bool
    decreases a,
{
    value_equiv(*a.def, *b.def) && tree_equiv(a.tree, b.tree)
}

/// `b` is the one-row, one-column grid (labels "" and "Value") holding
/// exactly `v` in its single cell.
pub open spec fn wrap_of(b: Branch, v: Value) -> bool {
    &&& b matches Branch::Args(g) && g.names@.len() == 1 && g.names@[0]@ == Seq::<char>::empty()
        && g.columns@.len() == 1 && g.columns@[0]@ == seq!['V', 'a', 'l', 'u', 'e']
        && g.cells@.len() == 1 && g.cells@[0].row == 0 && g.cells@[0].col == 0
        && g.cells@[0].value == v
}

/// The stored element for an inserted value: a structural value
/// contributes its own child, anything else is wrapped as a single-cell
/// grid.
pub open spec fn elem_of(b: Branch, v: Value) -> bool {
    match v.var {
        ValueVariant::Struct(inner) => b == *inner,
        _ => wrap_of(b, v),
    }
}

/// As `elem_of`, up to deep structural equality of the value.
pub open spec fn elem_of_equiv(b: Branch, v: Value) -> bool {
    match v.var {
        ValueVariant::Struct(inner) => branch_equiv(b, *inner),
        ValueVariant::Bool(x) => b matches Branch::Args(g) && g.names@.len() == 1
            && g.names@[0]@ == Seq::<char>::empty() && g.columns@.len() == 1 && g.columns@[0]@
            == seq!['V', 'a', 'l', 'u', 'e'] && g.cells@.len() == 1 && g.cells@[0].row == 0
            && g.cells@[0].col == 0 && value_equiv(g.cells@[0].value, v),
        ValueVariant::Text(t) => b matches Branch::Args(g) && g.names@.len() == 1
            && g.names@[0]@ == Seq::<char>::empty() && g.columns@.len() == 1 && g.columns@[0]@
            == seq!['V', 'a', 'l', 'u', 'e'] && g.cells@.len() == 1 && g.cells@[0].row == 0
            && g.cells@[0].col == 0 && value_equiv(g.cells@[0].value, v),
    }
}

/// The position a new element lands at: a position strictly inside the
/// current bounds, or the end.
pub open spec fn insert_pos(n: int, index: Option<usize>) -> int {
    match index {
        Some(i) => if (i as int) < n {
            i as int
        } else {
            n
        },
        None => n,
    }
}

impl Array {
    pub fn new(def: Value) -> (r: Array)
        ensures
            *r.def == def,
            r.tree.branches.entries@.len() == 0,
            value_wf(def) ==> array_wf(r),
    {
        Array { def: Box::new(def), tree: Tree::new_empty() }
    }

    /// Whether the template is itself a structural value.
    pub fn is_wrapped(&self) -> (r: bool)
        ensures
            r == (self.def.ty is Struct),
    {
        self.def.is_struct()
    }

    pub fn get_branches(&self) -> (r: &Branches)
        ensures
            *r == self.tree.branches,
    {
        &self.tree.branches
    }

    /// Rewrite every key to the decimal string of its position.
    fn renumber(&mut self)
        ensures
            final(self).def == old(self).def,
            ({
                let e0 = old(self).tree.branches.entries@;
                let e1 = final(self).tree.branches.entries@;
                e1.len() == e0.len() && forall|j: int|
                    0 <= j < e1.len() ==> (#[trigger] e1[j]).0@ == dec_rep(j) && e1[j].1 == e0[j].1
            }),
    {
        let n = self.tree.branches.len();
        let mut j: usize = 0;
        while j < n
            invariant
                j <= n,
                n == self.tree.branches.entries@.len(),
                self.def == old(self).def,
                forall|k: int|
                    0 <= k < j ==> (#[trigger] self.tree.branches.entries@[k]).0@ == dec_rep(k)
                        && self.tree.branches.entries@[k].1 == old(
                        self,
                    ).tree.branches.entries@[k].1,
                forall|k: int|
                    j <= k < n ==> #[trigger] self.tree.branches.entries@[k] == old(
                        self,
                    ).tree.branches.entries@[k],
            decreases n - j,
        {
            let pair = self.tree.branches.take_at(j);
            let key = dec_string(j);
            self.tree.branches.put_at(j, key, pair.1);
            j = j + 1;
        }
    }

    /// Insert a value. A position strictly inside the current bounds
    /// places the element there; anything else appends. Keys are dense
    /// afterwards, and a non-structural value is first wrapped as a
    /// single-cell grid.
    pub fn insert(&mut self, index: Option<usize>, value: Value)
        ensures
            final(self).def == old(self).def,
            ({
                let e0 = old(self).tree.branches.entries@;
                let e1 = final(self).tree.branches.entries@;
                let p = insert_pos(e0.len() as int, index);
                &&& e1.len() == e0.len() + 1
                &&& forall|j: int| 0 <= j < e1.len() ==> (#[trigger] e1[j]).0@ == dec_rep(j)
                &&& forall|j: int| 0 <= j < p ==> (#[trigger] e1[j]).1 == e0[j].1
                &&& elem_of(e1[p].1, value)
                &&& forall|j: int| p < j < e1.len() ==> (#[trigger] e1[j]).1 == e0[j - 1].1
            }),
            array_wf(*old(self)) && value_wf(value) ==> array_wf(*final(self)),
    {
        let n = self.tree.branches.len();
        let Value { ty, var } = value;
        let elem: Branch = match var {
            ValueVariant::Struct(inner) => *inner,
            other => {
                let v = Value { ty, var: other };
                assert(v == value);
                let mut names: Vec<String> = Vec::new();
                names.push(String::new());
                let mut columns: Vec<String> = Vec::new();
                columns.push(value_label());
                let mut cells: Vec<crate::args::Cell> = Vec::new();
                cells.push(crate::args::Cell { row: 0, col: 0, value: v });
                Branch::Args(crate::args::Args { names, columns, cells })
            },
        };
        let ghost gelem = elem;
        let p: usize = match index {
            Some(i) if i < n => i,
            _ => n,
        };
        self.tree.branches.put_at(p, String::new(), elem);
        self.renumber();
        proof {
            lemma_dense_distinct(self.tree.branches);
            if array_wf(*old(self)) && value_wf(value) {
                assert(crate::branch::branch_wf(gelem));
                assert forall|j: int|
                    0 <= j < self.tree.branches.entries@.len() implies crate::branch::branch_wf(
                    (#[trigger] self.tree.branches.entries@[j]).1,
                ) by {
                    let e0 = old(self).tree.branches.entries@;
                    if j < p {
                        assert(self.tree.branches.entries@[j].1 == e0[j].1);
                        assert(crate::branch::branch_wf(e0[j].1));
                    } else if j == p {
                    } else {
                        assert(self.tree.branches.entries@[j].1 == e0[j - 1].1);
                        assert(crate::branch::branch_wf(e0[j - 1].1));
                    }
                }
            }
        }
    }

    /// Append a fresh element synthesized from the template.
    pub fn insert_default(&mut self, index: Option<usize>)
        ensures
            final(self).def == old(self).def,
            ({
                let e0 = old(self).tree.branches.entries@;
                let e1 = final(self).tree.branches.entries@;
                let p = insert_pos(e0.len() as int, index);
                &&& e1.len() == e0.len() + 1
                &&& forall|j: int| 0 <= j < e1.len() ==> (#[trigger] e1[j]).0@ == dec_rep(j)
                &&& forall|j: int| 0 <= j < p ==> (#[trigger] e1[j]).1 == e0[j].1
                &&& elem_of_equiv(e1[p].1, *old(self).def)
                &&& forall|j: int| p < j < e1.len() ==> (#[trigger] e1[j]).1 == e0[j - 1].1
            }),
            array_wf(*old(self)) ==> array_wf(*final(self)),
    {
        let v = self.def.duplicate();
        self.insert(index, v);
    }

    /// Remove the element under `key` and renumber the survivors. The
    /// result names the element to refocus on: the same key when it was
    /// not the last, else the new last key, else nothing.
    pub fn remove(&mut self, key: &str) -> (r: Option<String>)
        ensures
            removed_rel(*old(self), *final(self), key@, r),
            array_wf(*old(self)) ==> array_wf(*final(self)),
    {
        let n = self.tree.branches.len();
        proof {
            crate::labels::lemma_find_idx(self.tree.branches.keys(), key@);
        }
        match self.tree.branches.index_of(key) {
            None => Some(key.to_owned()),
            Some(i) => {
                let not_last = i + 1 < n;
                let _removed = self.tree.branches.take_at(i);
                self.renumber();
                proof {
                    lemma_dense_distinct(self.tree.branches);
                }
                if not_last {
                    Some(key.to_owned())
                } else if self.tree.branches.len() > 0 {
                    let last = self.tree.branches.len() - 1;
                    Some(self.tree.branches.key_at(last).clone())
                } else {
                    None
                }
            },
        }
    }
}

/// Effect of appending a fresh default element: one new element at the
/// end, synthesized from the template, with keys dense afterwards.
pub open spec fn appended_default_rel(a0: Array, a1: Array) -> bool {
    let e0 = a0.tree.branches.entries@;
    let e1 = a1.tree.branches.entries@;
    &&& a1.def == a0.def
    &&& e1.len() == e0.len() + 1
    &&& forall|j: int| 0 <= j < e1.len() ==> (#[trigger] e1[j]).0@ == dec_rep(j)
    &&& forall|j: int| 0 <= j < e0.len() ==> (#[trigger] e1[j]).1 == e0[j].1
    &&& elem_of_equiv(e1[e0.len() as int].1, *a0.def)
}

/// Effect of `Array::remove`: an absent key leaves the collection
/// unchanged and echoes the key; a present key deletes its element,
/// shifts the successors down by one, renumbers, and names the refocus
/// key: the removed key when it was not the last, else the new last key,
/// else nothing.
pub open spec fn removed_rel(a0: Array, a1: Array, key: Seq<char>, r: Option<String>) -> bool {
    let e0 = a0.tree.branches.entries@;
    let e1 = a1.tree.branches.entries@;
    let i = a0.tree.branches.key_find(key);
    &&& a1.def == a0.def
    &&& if i < 0 {
        e1 == e0 && (r matches Some(s) && s@ == key)
    } else {
        &&& e1.len() == e0.len() - 1
        &&& forall|j: int| 0 <= j < e1.len() ==> (#[trigger] e1[j]).0@ == dec_rep(j)
        &&& forall|j: int| 0 <= j < i ==> (#[trigger] e1[j]).1 == e0[j].1
        &&& forall|j: int| i <= j < e1.len() ==> (#[trigger] e1[j]).1 == e0[j + 1].1
        &&& if i < e0.len() - 1 {
            r matches Some(s) && s@ == key
        } else if e0.len() > 1 {
            r matches Some(s) && s@ == dec_rep(e0.len() - 2)
        } else {
            r is None
        }
    }
}

/// The string "Value", the single column label of a wrapped element.
fn value_label() -> (r: String)
    ensures
        r@ == seq!['V', 'a', 'l', 'u', 'e'],
{
    proof {
        reveal_strlit("Value");
    }
    let s = "Value";
    assert(s@ =~= seq!['V', 'a', 'l', 'u', 'e']);
    s.to_owned()
}

/// Law: a well-formed collection's keys are exactly the decimal strings
/// of 0 up to its length, in order. `insert`, `insert_default` and
/// `remove` each state this of their result outright, so it holds after
/// any sequence of them.
pub proof fn lemma_dense_key_list(a: Array)
    requires
        array_wf(a),
    ensures
        forall|j: int|
            0 <= j < a.tree.branches.entries@.len() ==> a.tree.branches.keys()[j] == dec_rep(j),
{
}

/// Dense keys are pairwise distinct, since distinct indexes have
/// distinct decimal strings.
pub proof fn lemma_dense_distinct(b: Branches)
    requires
        dense_keys(b),
    ensures
        forall|i: int, j: int| 0 <= i < j < b.entries@.len() ==> b.keys()[i] != b.keys()[j],
{
    assert forall|i: int, j: int|
        0 <= i < j < b.entries@.len() implies b.keys()[i] != b.keys()[j] by {
        crate::numcheck::lemma_dec_rep_inj(i, j);
    }
}

} // verus!
