//! The navigator: a stack of selection frames over the form tree, an
//! edit-mode snapshot, and the transition function that consumes events.

use vstd::prelude::*;

use crate::args::{cell_by_cindex, Args};
use crate::branch::{list_of, Branch};
use crate::labels::find_idx;
use crate::tree::Branches;
use crate::Event;
use crate::value::{Value, ValueVariant};

verus! {

/// One frame of the navigation stack: a selected child label within a
/// group, or a selected row label and column position within a grid.
pub enum Node {
    Tree(String),
    Args(String, usize),
}

/// The label a node selects.
pub open spec fn node_label(n: Node) -> Seq<char> {
    match n {
        Node::Tree(s) => s@,
        Node::Args(s, _) => s@,
    }
}

/// The column a grid-selection node carries.
pub open spec fn node_col(n: Node) -> Option<int> {
    match n {
        Node::Tree(_) => None,
        Node::Args(_, c) => Some(c as int),
    }
}

impl Node {
    pub fn is_tree(&self) -> (r: bool)
        ensures
            r == (*self is Tree),
    {
        matches!(self, Node::Tree(_))
    }

    pub fn is_args(&self) -> (r: bool)
        ensures
            r == (*self is Args),
    {
        matches!(self, Node::Args(_, _))
    }

    pub fn as_tree(&self) -> (r: Option<&String>)
        ensures
            match r {
                Some(s) => *self matches Node::Tree(x) && x == *s,
                None => !(*self is Tree),
            },
    {
        match self {
            Node::Tree(s) => Some(s),
            _ => None,
        }
    }

    pub fn as_args(&self) -> (r: Option<(&String, usize)>)
        ensures
            match r {
                Some(p) => *self matches Node::Args(x, c) && x == *p.0 && c == p.1,
                None => !(*self is Args),
            },
    {
        match self {
            Node::Args(s, c) => Some((s, *c)),
            _ => None,
        }
    }

    /// The selected label, whatever the node kind.
    pub fn text(&self) -> (r: &String)
        ensures
            r@ == node_label(*self),
    {
        match self {
            Node::Tree(s) => s,
            Node::Args(s, _) => s,
        }
    }

    /// Replace the selected label, keeping the node kind and column.
    pub fn change_text(&mut self, text: String)
        ensures
            node_label(*final(self)) == text@,
            node_col(*final(self)) == node_col(*old(self)),
            *old(self) is Tree <==> *final(self) is Tree,
    {
        match self {
            Node::Tree(s) => {
                *s = text;
            },
            Node::Args(s, _) => {
                *s = text;
            },
        }
    }

    /// Move a grid selection one column right, clamped to `max`.
    pub fn inc_index(&mut self, max: usize)
        ensures
            match *old(self) {
                Node::Args(s, c) => *final(self) matches Node::Args(s1, c1) && s1 == s && c1 == (
                if c + 1 <= max {
                    c + 1
                } else {
                    max as int
                }),
                Node::Tree(_) => *final(self) == *old(self),
            },
    {
        match self {
            Node::Args(_, c) => {
                if *c < max {
                    *c = *c + 1;
                } else {
                    *c = max;
                }
            },
            _ => {},
        }
    }

    /// Move a grid selection one column left. Reports `true` exactly
    /// when the node is a grid selection already at column 0, which is
    /// the ascent handler's cue to pop instead.
    pub fn dec_index(&mut self) -> (r: bool)
        ensures
            match *old(self) {
                Node::Args(s, c) => if c == 0 {
                    r == true && *final(self) == *old(self)
                } else {
                    r == false && (*final(self) matches Node::Args(s1, c1) && s1 == s && c1 == c
                        - 1)
                },
                Node::Tree(_) => r == false && *final(self) == *old(self),
            },
    {
        match self {
            Node::Args(_, c) => {
                if *c == 0 {
                    true
                } else {
                    *c = *c - 1;
                    false
                }
            },
            _ => false,
        }
    }

    /// A copy holding an equal label.
    pub fn duplicate(&self) -> (r: Node)
        ensures
            r == *self,
    {
        match self {
            Node::Tree(s) => Node::Tree(s.clone()),
            Node::Args(s, c) => Node::Args(s.clone(), *c),
        }
    }
}

/// The navigator: the position stack, root tab first, and the edit-mode
/// snapshot (`Some` holds the text as it was when editing began).
pub struct State {
    pub position: Vec<Node>,
    pub input: Option<Vec<char>>,
}

/// The index of the tab the stack's root frame selects, or `-1`.
pub open spec fn tab_index_spec(tabs: Branches, pos: Seq<Node>) -> int {
    if pos.len() > 0 && pos[0] is Tree {
        find_idx(tabs.keys(), node_label(pos[0]))
    } else {
        -1
    }
}

/// The branch of the selected tab.
pub open spec fn tab_branch_spec(tabs: Branches, pos: Seq<Node>) -> Option<Branch> {
    let i = tab_index_spec(tabs, pos);
    if i < 0 {
        None
    } else {
        Some(tabs.entries@[i].1)
    }
}

/// One resolution step: follow a node into a child. In a grid, the cell
/// at the node's row label and column must hold a structural value; in a
/// group or collection, the node's label names the child.
pub open spec fn step_spec(b: Branch, n: Node) -> Option<Branch> {
    match b {
        Branch::Args(a) => match n {
            Node::Args(name, col) => match cell_by_cindex(a, name@, col as int) {
                Some(v) => match v.var {
                    ValueVariant::Struct(inner) => Some(*inner),
                    _ => None,
                },
                None => None,
            },
            Node::Tree(_) => None,
        },
        Branch::Tree(t) => t.branches.get_spec(node_label(n)),
        Branch::Array(arr) => arr.tree.branches.get_spec(node_label(n)),
    }
}

/// Follow a whole path of nodes.
pub open spec fn descend_spec(b: Branch, path: Seq<Node>) -> Option<Branch>
    decreases path.len(),
{
    if path.len() == 0 {
        Some(b)
    } else {
        match step_spec(b, path[0]) {
            Some(nb) => descend_spec(nb, path.skip(1)),
            None => None,
        }
    }
}

/// The end (exclusive) of the interior path for a given offset from the
/// stack top: the path descends from the tab through all frames except
/// the selector frame and `offset` frames above it.
pub open spec fn interior_end(len: int, offset: int) -> int {
    if len - 1 - offset < 1 {
        1
    } else {
        len - 1 - offset
    }
}

/// The container `offset` levels above the innermost selection.
pub open spec fn container_spec(tabs: Branches, pos: Seq<Node>, offset: int) -> Option<Branch> {
    match tab_branch_spec(tabs, pos) {
        Some(b) => descend_spec(b, pos.subrange(1, interior_end(pos.len() as int, offset))),
        None => None,
    }
}

/// The value selected `offset` levels above the stack top: the container
/// there must be a grid and the frame a grid selection.
pub open spec fn sel_value_spec(tabs: Branches, pos: Seq<Node>, offset: int) -> Option<Value> {
    if pos.len() < offset + 2 {
        None
    } else {
        let node = pos[pos.len() - 1 - offset];
        match container_spec(tabs, pos, offset) {
            Some(Branch::Args(a)) => match node {
                Node::Args(name, col) => cell_by_cindex(a, name@, col as int),
                _ => None,
            },
            _ => None,
        }
    }
}

impl Default for State {
    /// An empty stack, no edit in progress.
    fn default() -> (r: State)
        ensures
            r.position@.len() == 0,
            r.input is None,
    {
        State::new()
    }
}

impl State {
    pub fn new() -> (r: State)
        ensures
            r.position@.len() == 0,
            r.input is None,
    {
        State { position: Vec::new(), input: None }
    }

    /// Whether a text edit is in progress.
    pub fn in_input(&self) -> (r: bool)
        ensures
            r == (self.input is Some),
    {
        self.input.is_some()
    }

    /// The frame at a given depth.
    pub fn node(&self, level: usize) -> (r: Option<&Node>)
        ensures
            match r {
                Some(n) => level < self.position@.len() && *n == self.position@[level as int],
                None => level >= self.position@.len(),
            },
    {
        if level < self.position.len() {
            Some(&self.position[level])
        } else {
            None
        }
    }

    /// The index of the selected tab.
    pub fn index_tab(&self, tabs: &Branches) -> (r: Option<usize>)
        ensures
            match r {
                Some(i) => i == tab_index_spec(*tabs, self.position@),
                None => tab_index_spec(*tabs, self.position@) == -1,
            },
    {
        if self.position.len() == 0 {
            return None;
        }
        let name = match &self.position[0] {
            Node::Tree(s) => s,
            Node::Args(_, _) => {
                return None;
            },
        };
        tabs.index_of(name.as_str())
    }

    /// The selected tab's name and branch position.
    pub fn current_tab(&self, tabs: &Branches) -> (r: Option<usize>)
        ensures
            match r {
                Some(i) => i == tab_index_spec(*tabs, self.position@) && i
                    < tabs.entries@.len(),
                None => tab_index_spec(*tabs, self.position@) == -1,
            },
    {
        let r = self.index_tab(tabs);
        proof {
            crate::labels::lemma_find_idx(tabs.keys(), node_label(self.position@[0]));
        }
        r
    }
}

/// Resolve the interior path `pos[i .. end]` from `b` by shared
/// reference.
pub fn branch_at<'a>(b: &'a Branch, pos: &Vec<Node>, i: usize, end: usize) -> (r: Option<
    &'a Branch,
>)
    requires
        i <= end <= pos@.len(),
    ensures
        match r {
            Some(rb) => descend_spec(*b, pos@.subrange(i as int, end as int)) == Some(*rb),
            None => descend_spec(*b, pos@.subrange(i as int, end as int)) is None,
        },
    decreases end - i,
{
    let ghost path = pos@.subrange(i as int, end as int);
    if i == end {
        return Some(b);
    }
    let node = &pos[i];
    let next: Option<&Branch> = match b {
        Branch::Args(a) => {
            match node {
                Node::Args(name, col) => {
                    match a.get_value_by_cindex(name.as_str(), *col) {
                        Some(v) => match v.as_struct() {
                            Some(inner) => Some(inner),
                            None => None,
                        },
                        None => None,
                    }
                },
                Node::Tree(_) => None,
            }
        },
        Branch::Tree(t) => t.branches.get(node.text().as_str()),
        Branch::Array(arr) => arr.tree.branches.get(node.text().as_str()),
    };
    proof {
        assert(path[0] == pos@[i as int]);
        assert(path.skip(1) =~= pos@.subrange(i as int + 1, end as int));
    }
    match next {
        Some(nb) => {
            assert(step_spec(*b, pos@[i as int]) == Some(*nb));
            branch_at(nb, pos, i + 1, end)
        },
        None => {
            assert(step_spec(*b, pos@[i as int]) is None);
            None
        },
    }
}

impl State {
    /// The container `offset` levels above the innermost selection.
    pub fn container<'a>(&self, tabs: &'a Branches, offset: usize) -> (r: Option<&'a Branch>)
        ensures
            match r {
                Some(b) => container_spec(*tabs, self.position@, offset as int) == Some(*b),
                None => container_spec(*tabs, self.position@, offset as int) is None,
            },
    {
        let ti = match self.current_tab(tabs) {
            Some(i) => i,
            None => {
                return None;
            },
        };
        let b = tabs.branch_at(ti);
        let len = self.position.len();
        let end: usize = if len >= 2 && offset <= len - 2 {
            len - 1 - offset
        } else {
            1
        };
        branch_at(b, &self.position, 1, end)
    }

    /// The value selected `offset` levels above the stack top.
    pub fn sel_value<'a>(&self, tabs: &'a Branches, offset: usize) -> (r: Option<&'a Value>)
        ensures
            match r {
                Some(v) => sel_value_spec(*tabs, self.position@, offset as int) == Some(*v),
                None => sel_value_spec(*tabs, self.position@, offset as int) is None,
            },
    {
        let len = self.position.len();
        if !(len >= 2 && offset <= len - 2) {
            return None;
        }
        let container = match self.container(tabs, offset) {
            Some(b) => b,
            None => {
                return None;
            },
        };
        let a: &Args = match container {
            Branch::Args(a) => a,
            _ => {
                return None;
            },
        };
        let node = &self.position[len - 1 - offset];
        match node {
            Node::Args(name, col) => a.get_value_by_cindex(name.as_str(), *col),
            Node::Tree(_) => None,
        }
    }
}

} // verus!

verus! {

/// One cyclic step through an ordered label list: the entry after or
/// before the current label; past either end, or when the current label
/// is absent, the first entry; nothing when the list is empty.
pub open spec fn step_label(list: Seq<Seq<char>>, cur: Seq<char>, forward: bool) -> Option<
    Seq<char>,
> {
    if list.len() == 0 {
        None
    } else {
        let i = find_idx(list, cur);
        if i < 0 {
            Some(list[0])
        } else if forward {
            Some(
                if i + 1 < list.len() {
                    list[i + 1]
                } else {
                    list[0]
                },
            )
        } else {
            Some(
                if i > 0 {
                    list[i - 1]
                } else {
                    list[0]
                },
            )
        }
    }
}

/// `pos1` is `pos0` with the last frame's label replaced by `lbl`.
pub open spec fn relabeled_last(pos0: Seq<Node>, pos1: Seq<Node>, lbl: Seq<char>) -> bool {
    &&& pos0.len() > 0
    &&& pos1.len() == pos0.len()
    &&& forall|i: int| 0 <= i < pos0.len() - 1 ==> pos1[i] == pos0[i]
    &&& node_label(pos1.last()) == lbl
    &&& node_col(pos1.last()) == node_col(pos0.last())
    &&& (pos1.last() is Tree <==> pos0.last() is Tree)
}

/// The label an item move selects: a step through the current
/// container's label list from the last frame's label.
pub open spec fn item_step_spec(tabs: Branches, pos: Seq<Node>, forward: bool) -> Option<
    Seq<char>,
> {
    if pos.len() == 0 {
        None
    } else {
        match container_spec(tabs, pos, 0) {
            Some(b) => step_label(list_of(b), node_label(pos.last()), forward),
            None => None,
        }
    }
}

/// Effect of an item move on the stack.
pub open spec fn item_rel(pos0: Seq<Node>, pos1: Seq<Node>, tabs: Branches, forward: bool) -> bool {
    match item_step_spec(tabs, pos0, forward) {
        Some(lbl) => relabeled_last(pos0, pos1, lbl),
        None => pos1 == pos0,
    }
}

/// `n` is the frame derived from a child: a grid selection at its first
/// row label and column 0, or a group selection at its first child name;
/// an empty label when the child has none.
pub open spec fn node_of_rel(n: Node, b: Branch) -> bool {
    let lbl = if list_of(b).len() == 0 {
        Seq::<char>::empty()
    } else {
        list_of(b)[0]
    };
    match b {
        Branch::Args(_) => n matches Node::Args(s, c) && s@ == lbl && c == 0,
        _ => n matches Node::Tree(s) && s@ == lbl,
    }
}

/// One cyclic step through the label list, as executable code.
fn step_in_list(list: &Vec<String>, cur: &String, forward: bool) -> (r: Option<String>)
    ensures
        match r {
            Some(s) => step_label(crate::labels::str_views(list@), cur@, forward) == Some(s@),
            None => step_label(crate::labels::str_views(list@), cur@, forward) is None,
        },
{
    let n = list.len();
    if n == 0 {
        return None;
    }
    match crate::labels::find_string(list, cur.as_str()) {
        None => Some(list[0].clone()),
        Some(i) => {
            proof {
                crate::labels::lemma_find_idx(crate::labels::str_views(list@), cur@);
            }
            if forward {
                if i + 1 < n {
                    Some(list[i + 1].clone())
                } else {
                    Some(list[0].clone())
                }
            } else {
                if i > 0 {
                    Some(list[i - 1].clone())
                } else {
                    Some(list[0].clone())
                }
            }
        },
    }
}

/// The frame derived from a child.
fn node_of(b: &Branch) -> (n: Node)
    ensures
        node_of_rel(n, *b),
{
    let list = b.get_list();
    let lbl: String = if list.len() == 0 {
        String::new()
    } else {
        list[0].clone()
    };
    proof {
        if list@.len() > 0 {
            assert(crate::labels::str_views(list@)[0] == list@[0]@);
        }
    }
    match b {
        Branch::Args(_) => Node::Args(lbl, 0),
        _ => Node::Tree(lbl),
    }
}

impl State {
    /// Move the innermost selection to the next or previous label of the
    /// current container, cyclically.
    fn item_handler(&mut self, tabs: &Branches, is_next: bool)
        ensures
            final(self).input == old(self).input,
            item_rel(old(self).position@, final(self).position@, *tabs, is_next),
    {
        if self.position.len() == 0 {
            return;
        }
        let stepped: Option<String> = match self.container(tabs, 0) {
            Some(b) => {
                let list = b.get_list();
                let last = self.position.len() - 1;
                let cur = self.position[last].text().clone();
                step_in_list(&list, &cur, is_next)
            },
            None => None,
        };
        match stepped {
            Some(lbl) => {
                match self.position.pop() {
                    Some(mut node) => {
                        node.change_text(lbl);
                        self.position.push(node);
                        proof {
                            assert(forall|i: int|
                                0 <= i < old(self).position@.len() - 1 ==> self.position@[i]
                                    == old(self).position@[i]);
                        }
                    },
                    None => {},
                }
            },
            None => {},
        }
    }
}

} // verus!

verus! {

/// The tab a tab move selects, among a non-empty tab set: the next one
/// (wrapping to the first, and treating an unresolved current tab as the
/// first) or the previous one (wrapping to the last).
pub open spec fn tab_target(tabs: Branches, pos: Seq<Node>, next: bool) -> int {
    let cur = tab_index_spec(tabs, pos);
    let n = tabs.entries@.len() as int;
    if next {
        let base = if cur < 0 {
            0
        } else {
            cur
        };
        if base + 1 < n {
            base + 1
        } else {
            0
        }
    } else {
        if cur <= 0 {
            n - 1
        } else {
            cur - 1
        }
    }
}

/// The stack right after a tab switch: the tab's own frame and the frame
/// derived from its first child.
pub open spec fn reset_nodes_ok(pos1: Seq<Node>, key: Seq<char>, b: Branch) -> bool {
    &&& pos1.len() == 2
    &&& pos1[0] matches Node::Tree(s) && s@ == key
    &&& node_of_rel(pos1[1], b)
}

/// Effect of a tab move: with no tabs the stack is unchanged; else the
/// stack is reseeded onto the target tab. (The item normalization that
/// follows the reseed selects the first label again, so it leaves this
/// shape intact.)
pub open spec fn tab_rel(pos0: Seq<Node>, pos1: Seq<Node>, tabs: Branches, next: bool) -> bool {
    if tabs.entries@.len() == 0 {
        pos1 == pos0
    } else {
        let t = tab_target(tabs, pos0, next);
        reset_nodes_ok(pos1, tabs.keys()[t], tabs.entries@[t].1)
    }
}

impl State {
    /// Select the next or previous tab and reseed the stack onto it,
    /// then normalize the selection with an item move.
    fn tab_handler(&mut self, tabs: &Branches, is_next: bool)
        ensures
            final(self).input == old(self).input,
            crate::tree::branches_wf(*tabs) ==> tab_rel(old(self).position@, final(self).position@, *tabs, is_next),
    {
        let n = tabs.len();
        if n == 0 {
            self.item_handler(tabs, false);
            proof {
                if crate::tree::branches_wf(*tabs) {
                    assert(item_step_spec(*tabs, old(self).position@, false) is None);
                }
            }
            return;
        }
        proof {
            if old(self).position@.len() > 0 && old(self).position@[0] is Tree {
                crate::labels::lemma_find_idx(tabs.keys(), node_label(old(self).position@[0]));
            }
        }
        let cur = self.index_tab(tabs);
        let t: usize = if is_next {
            let base: usize = match cur {
                Some(i) => i,
                None => 0,
            };
            if base + 1 < n {
                base + 1
            } else {
                0
            }
        } else {
            match cur {
                Some(i) => if i == 0 {
                    n - 1
                } else {
                    i - 1
                },
                None => n - 1,
            }
        };
        let key = tabs.key_at(t).clone();
        let b = tabs.branch_at(t);
        let node = node_of(b);
        self.position.clear();
        self.position.push(Node::Tree(key));
        self.position.push(node);
        let ghost mid = self.position@;
        let ghost tgt = tab_target(*tabs, old(self).position@, is_next);
        proof {
            assert(tgt == t);
            assert(reset_nodes_ok(mid, tabs.keys()[tgt], tabs.entries@[tgt].1));
        }
        self.item_handler(tabs, false);
        proof {
            if crate::tree::branches_wf(*tabs) {
                lemma_reset_item_identity(mid, self.position@, *tabs, t as int);
            }
        }
    }
}

/// After a reseed onto tab `t`, the normalizing item move keeps the
/// two-frame shape: the first label steps to itself.
proof fn lemma_reset_item_identity(mid: Seq<Node>, pos1: Seq<Node>, tabs: Branches, t: int)
    requires
        crate::tree::branches_wf(tabs),
        0 <= t < tabs.entries@.len(),
        reset_nodes_ok(mid, tabs.keys()[t], tabs.entries@[t].1),
        match item_step_spec(tabs, mid, false) {
            Some(lbl) => relabeled_last(mid, pos1, lbl),
            None => pos1 == mid,
        },
    ensures
        reset_nodes_ok(pos1, tabs.keys()[t], tabs.entries@[t].1),
{
    // the root frame selects tab t exactly
    crate::labels::lemma_find_idx(tabs.keys(), tabs.keys()[t]);
    let f = find_idx(tabs.keys(), tabs.keys()[t]);
    assert(f >= 0);
    if f != t {
        assert(tabs.keys()[f] == tabs.keys()[t]);
        assert(false);
    }
    assert(tab_index_spec(tabs, mid) == t);
    let b = tabs.entries@[t].1;
    assert(mid.subrange(1, interior_end(mid.len() as int, 0)) =~= Seq::<Node>::empty());
    assert(container_spec(tabs, mid, 0) == Some(b));
    let list = list_of(b);
    if list.len() == 0 {
        assert(node_label(mid.last()) == Seq::<char>::empty());
        assert(item_step_spec(tabs, mid, false) is None);
    } else {
        assert(node_label(mid.last()) == list[0]);
        crate::labels::lemma_find_idx_of(list, list[0], 0);
        assert(step_label(list, list[0], false) == Some(list[0]));
        assert(relabeled_last(mid, pos1, list[0]));
        assert(pos1[0] == mid[0]);
    }
}

} // verus!

verus! {

/// The child a descent from a grid container selects: the cell at the
/// last frame's row label, in column 0 for a lateral move and in the
/// frame's own column for Enter, if it holds a non-empty structural
/// value.
pub open spec fn nl_args_child(a: Args, last: Node, is_next: bool) -> Option<Branch> {
    let row = find_idx(crate::labels::str_views(a.names@), node_label(last));
    if row < 0 {
        None
    } else {
        let col: int = if is_next {
            0
        } else {
            match node_col(last) {
                Some(c) => c,
                None => 0,
            }
        };
        match crate::args::cell_at(a, row, col) {
            Some(v) => match v.var {
                ValueVariant::Struct(inner) => if list_of(*inner).len() > 0 {
                    Some(*inner)
                } else {
                    None
                },
                _ => None,
            },
            None => None,
        }
    }
}

/// The child a descent from a group or collection selects: the child
/// under the last frame's label, if non-empty.
pub open spec fn nl_group_child(b: Branch, last: Node) -> Option<Branch> {
    let m = match b {
        Branch::Tree(t) => t.branches.get_spec(node_label(last)),
        Branch::Array(arr) => arr.tree.branches.get_spec(node_label(last)),
        Branch::Args(_) => None,
    };
    match m {
        Some(child) => if list_of(child).len() > 0 {
            Some(child)
        } else {
            None
        },
        None => None,
    }
}

/// `pos1` is `pos0` with one frame pushed, derived from `b`.
pub open spec fn pushed_node(pos0: Seq<Node>, pos1: Seq<Node>, b: Branch) -> bool {
    &&& pos1.len() == pos0.len() + 1
    &&& forall|i: int| 0 <= i < pos0.len() ==> pos1[i] == pos0[i]
    &&& node_of_rel(pos1.last(), b)
}

/// `pos1` is `pos0` with the last frame's column moved right, clamped.
pub open spec fn inc_last_rel(pos0: Seq<Node>, pos1: Seq<Node>, max: int) -> bool {
    &&& pos0.len() > 0
    &&& pos1.len() == pos0.len()
    &&& forall|i: int| 0 <= i < pos0.len() - 1 ==> pos1[i] == pos0[i]
    &&& match pos0.last() {
        Node::Args(s, c) => pos1.last() matches Node::Args(s1, c1) && s1@ == s@ && c1 == (
        if c + 1 <= max {
            c + 1
        } else {
            max as int
        }),
        Node::Tree(_) => pos1.last() == pos0.last(),
    }
}

/// Effect of a level descent (`NextLevel`, or the descent half of
/// `Enter`): a lateral column move on a many-column grid for
/// `NextLevel`, else a push onto the selected non-empty structural
/// child; a no-op when nothing resolves.
pub open spec fn next_level_rel(pos0: Seq<Node>, pos1: Seq<Node>, tabs: Branches, is_next: bool) -> bool {
    match container_spec(tabs, pos0, 0) {
        None => pos1 == pos0,
        Some(b) => match b {
            Branch::Args(a) => if a.columns@.len() > 1 && is_next {
                inc_last_rel(pos0, pos1, a.columns@.len() - 1)
            } else {
                match nl_args_child(a, pos0.last(), is_next) {
                    Some(child) => pushed_node(pos0, pos1, child),
                    None => pos1 == pos0,
                }
            },
            _ => match nl_group_child(b, pos0.last()) {
                Some(child) => pushed_node(pos0, pos1, child),
                None => pos1 == pos0,
            },
        },
    }
}

/// The ascent condition: popping must leave the tab frame and one
/// selection, unless the popped frame is a non-zero-column grid
/// selection.
pub open spec fn ascend_allowed(pos: Seq<Node>) -> bool {
    pos.len() > 2 || (pos.len() > 0 && (pos.last() matches Node::Args(_, c) && c > 0))
}

/// Effect of a level ascent: on a grid container a non-zero column moves
/// one column left; otherwise the last frame is popped when allowed. A
/// column-0 grid selection at the top of the stack stays put.
pub open spec fn prev_level_rel(pos0: Seq<Node>, pos1: Seq<Node>, tabs: Branches) -> bool {
    match container_spec(tabs, pos0, 0) {
        Some(Branch::Args(_)) => match pos0.last() {
            Node::Args(s, c) => if c > 0 {
                pos1 == pos0.update(pos0.len() - 1, Node::Args(s, (c - 1) as usize))
            } else if pos0.len() > 2 {
                pos1 == pos0.drop_last()
            } else {
                pos1 == pos0
            },
            Node::Tree(_) => pos1 == pos0,
        },
        _ => if ascend_allowed(pos0) {
            pos1 == pos0.drop_last()
        } else {
            pos1 == pos0
        },
    }
}

/// The non-empty child under `name`, if any.
fn group_child<'a>(branches: &'a Branches, name: &String) -> (r: Option<&'a Branch>)
    ensures
        match r {
            Some(c) => branches.get_spec(name@) == Some(*c) && list_of(*c).len() > 0,
            None => match branches.get_spec(name@) {
                Some(c) => list_of(c).len() == 0,
                None => true,
            },
        },
{
    match branches.get(name.as_str()) {
        Some(c) => {
            if !c.is_empty() {
                Some(c)
            } else {
                None
            }
        },
        None => None,
    }
}

impl State {
    /// Descend one level, or move laterally across grid columns.
    fn next_level_handler(&mut self, tabs: &Branches, is_next: bool)
        ensures
            final(self).input == old(self).input,
            next_level_rel(old(self).position@, final(self).position@, *tabs, is_next),
    {
        let decision: Option<(Node, bool)> = match self.container(tabs, 0) {
            None => None,
            Some(b) => {
                assert(self.position@.len() > 0);
                let last = self.position.len() - 1;
                match b {
                    Branch::Args(a) => {
                        if a.columns.len() > 1 && is_next {
                            let mut node = self.position[last].duplicate();
                            node.inc_index(a.columns.len() - 1);
                            Some((node, true))
                        } else {
                            let name = self.position[last].text();
                            match crate::labels::find_string(&a.names, name.as_str()) {
                                None => None,
                                Some(row) => {
                                    let col: usize = if is_next {
                                        0
                                    } else {
                                        match &self.position[last] {
                                            Node::Args(_, c) => *c,
                                            Node::Tree(_) => 0,
                                        }
                                    };
                                    match a.get_value_by_indexes(row, col) {
                                        Some(v) => match v.as_struct() {
                                            Some(child) => if !child.is_empty() {
                                                Some((node_of(child), false))
                                            } else {
                                                None
                                            },
                                            None => None,
                                        },
                                        None => None,
                                    }
                                },
                            }
                        }
                    },
                    Branch::Tree(t) => {
                        let name = self.position[last].text();
                        match group_child(&t.branches, name) {
                            Some(child) => Some((node_of(child), false)),
                            None => None,
                        }
                    },
                    Branch::Array(arr) => {
                        let name = self.position[last].text();
                        match group_child(&arr.tree.branches, name) {
                            Some(child) => Some((node_of(child), false)),
                            None => None,
                        }
                    },
                }
            },
        };
        match decision {
            Some((node, replace)) => {
                if replace {
                    self.position.pop();
                }
                self.position.push(node);
                proof {
                    if replace {
                        assert(forall|i: int|
                            0 <= i < old(self).position@.len() - 1 ==> self.position@[i] == old(
                                self,
                            ).position@[i]);
                    } else {
                        assert(forall|i: int|
                            0 <= i < old(self).position@.len() ==> self.position@[i] == old(
                                self,
                            ).position@[i]);
                    }
                }
            },
            None => {},
        }
    }

    /// Ascend one level, or move one grid column left.
    fn previous_level_handler(&mut self, tabs: &Branches)
        ensures
            final(self).input == old(self).input,
            prev_level_rel(old(self).position@, final(self).position@, *tabs),
    {
        let len = self.position.len();
        let allowed = len > 2 || (len > 0 && match &self.position[len - 1] {
            Node::Args(_, c) => *c > 0,
            Node::Tree(_) => false,
        });
        let is_args_container = match self.container(tabs, 0) {
            Some(b) => matches!(b, Branch::Args(_)),
            None => false,
        };
        if is_args_container {
            assert(self.position@.len() > 0);
            match self.position.pop() {
                Some(mut node) => {
                    let keep = match &mut node {
                        Node::Args(_, c) => {
                            if *c > 0 {
                                *c = *c - 1;
                                true
                            } else {
                                len <= 2
                            }
                        },
                        Node::Tree(_) => true,
                    };
                    if keep {
                        self.position.push(node);
                        proof {
                            match old(self).position@.last() {
                                Node::Args(s, c) => {
                                    if c > 0 {
                                        assert(self.position@ =~= old(self).position@.update(
                                            old(self).position@.len() - 1,
                                            Node::Args(s, (c - 1) as usize),
                                        ));
                                    } else {
                                        assert(self.position@ =~= old(self).position@);
                                    }
                                },
                                Node::Tree(_) => {
                                    assert(self.position@ =~= old(self).position@);
                                },
                            }
                        }
                    }
                },
                None => {},
            }
        } else {
            if allowed {
                self.position.pop();
            }
        }
    }
}

} // verus!

verus! {

/// What an edit event did to the edit-mode state: keep it, begin an edit
/// with the given snapshot, or end it.
pub enum EditEffect {
    Keep,
    Begin(Vec<char>),
    End,
}

/// The report of the edit handler: whether the event was consumed (a
/// consumed `Enter` skips the descent that follows), and the effect on
/// the edit mode.
pub struct EventOut {
    pub consumed: bool,
    pub effect: EditEffect,
}

/// The snapshot a stored edit-mode state holds, as a character sequence.
pub open spec fn input_view(i: Option<Vec<char>>) -> Option<Seq<char>> {
    match i {
        Some(v) => Some(v@),
        None => None,
    }
}

/// The edit handler's effect on the selected value. A boolean flips and
/// is consumed. A collection appends a fresh default element and is
/// consumed. On a text cell, `Enter` outside edit mode begins an edit
/// (snapshotting the text and recoloring); inside edit mode the events
/// move the cursor, insert or delete at it (recoloring after each
/// mutation), commit on `Enter` only when the text is valid, or restore
/// the snapshot on `Cancel`. Anything else leaves the value unchanged.
pub open spec fn value_event_spec(
    v0: Value,
    v1: Value,
    ev: Event,
    input: Option<Seq<char>>,
    out: EventOut,
) -> bool {
    match v0.var {
        ValueVariant::Bool(b) => {
            &&& v1.ty == v0.ty
            &&& v1.var matches ValueVariant::Bool(b1) && b1 == !b
            &&& out.consumed == true
            &&& out.effect is Keep
        },
        ValueVariant::Struct(br0) => if *br0 is Array {
            &&& v1.ty == v0.ty
            &&& out.consumed == true
            &&& out.effect is Keep
            &&& v1.var matches ValueVariant::Struct(br1) && (*br0 matches Branch::Array(a0) && (
            *br1 matches Branch::Array(a1) && crate::array::appended_default_rel(a0, a1)))
        } else {
            v1 == v0 && out.consumed == false && out.effect is Keep
        },
        ValueVariant::Text(t) => {
            &&& v1.ty == v0.ty
            &&& match input {
                None => if ev is Enter {
                    &&& v1.var matches ValueVariant::Text(t1) && t1.text() == t.text()
                        && t1.cursor == t.cursor && t1.mark == Some(
                        crate::value::text_check(v0.ty, t.text()),
                    )
                    &&& out.consumed == false
                    &&& out.effect matches EditEffect::Begin(s) && s@ == t.text()
                } else {
                    v1 == v0 && out.consumed == false && out.effect is Keep
                },
                Some(saved) => {
                    &&& out.consumed == true
                    &&& match ev {
                        Event::NextLevel => (v1.var matches ValueVariant::Text(t1) && t1.text()
                            == t.text() && t1.mark == t.mark && t1.cursor == (
                        if t.cursor < t.text().len() {
                            t.cursor + 1
                        } else {
                            t.cursor as int
                        })) && out.effect is Keep,
                        Event::PreviousLevel => (v1.var matches ValueVariant::Text(t1)
                            && t1.text() == t.text() && t1.mark == t.mark && t1.cursor == (
                        if t.cursor > 0 {
                            t.cursor - 1
                        } else {
                            0int
                        })) && out.effect is Keep,
                        Event::Enter => if crate::value::text_check(v0.ty, t.text()) {
                            (v1.var matches ValueVariant::Text(t1) && t1.text() == t.text()
                                && t1.mark == t.mark && t1.cursor == t.text().len())
                                && out.effect is End
                        } else {
                            v1 == v0 && out.effect is Keep
                        },
                        Event::Cancel => (v1.var matches ValueVariant::Text(t1) && t1.text()
                            == saved && t1.cursor == saved.len() && t1.mark == t.mark)
                            && out.effect is End,
                        Event::Char(c) => (v1.var matches ValueVariant::Text(t1) && t1.text()
                            == t.text().insert(t.cursor as int, c) && t1.cursor == t.cursor + 1
                            && t1.mark == Some(crate::value::text_check(v0.ty, t1.text())))
                            && out.effect is Keep,
                        Event::Backspace => (v1.var matches ValueVariant::Text(t1) && (
                        if t.cursor > 0 {
                            t1.text() == t.text().remove(t.cursor - 1) && t1.cursor == t.cursor
                                - 1
                        } else {
                            t1.text() == t.text() && t1.cursor == 0
                        }) && t1.mark == Some(crate::value::text_check(v0.ty, t1.text())))
                            && out.effect is Keep,
                        _ => v1 == v0 && out.effect is Keep,
                    }
                },
            }
        },
    }
}

/// Apply one edit event to a value.
pub fn value_event(v: Value, event: &Event, input: &Option<Vec<char>>) -> (r: (Value, EventOut))
    requires
        crate::value::value_wf(v),
    ensures
        crate::value::value_wf(r.0),
        value_event_spec(v, r.0, *event, input_view(*input), r.1),
{
    let Value { ty, var } = v;
    match var {
        ValueVariant::Bool(b) => (
            Value { ty, var: ValueVariant::Bool(!b) },
            EventOut { consumed: true, effect: EditEffect::Keep },
        ),
        ValueVariant::Struct(bx) => match *bx {
            Branch::Array(mut arr) => {
                arr.insert_default(None);
                (
                    Value { ty, var: ValueVariant::Struct(Box::new(Branch::Array(arr))) },
                    EventOut { consumed: true, effect: EditEffect::Keep },
                )
            },
            other => (
                Value { ty, var: ValueVariant::Struct(Box::new(other)) },
                EventOut { consumed: false, effect: EditEffect::Keep },
            ),
        },
        ValueVariant::Text(mut t) => match input {
            None => {
                if matches!(event, Event::Enter) {
                    let snapshot = t.text_chars();
                    let ok = crate::value::check_text(&ty, &t.chars);
                    t.set_mark(ok);
                    (
                        Value { ty, var: ValueVariant::Text(t) },
                        EventOut { consumed: false, effect: EditEffect::Begin(snapshot) },
                    )
                } else {
                    (
                        Value { ty, var: ValueVariant::Text(t) },
                        EventOut { consumed: false, effect: EditEffect::Keep },
                    )
                }
            },
            Some(saved) => {
                let effect: EditEffect = match event {
                    Event::NextLevel => {
                        t.cursor_forward();
                        EditEffect::Keep
                    },
                    Event::PreviousLevel => {
                        t.cursor_back();
                        EditEffect::Keep
                    },
                    Event::Enter => {
                        let ok = crate::value::check_text(&ty, &t.chars);
                        if ok {
                            t.cursor_end();
                            EditEffect::End
                        } else {
                            EditEffect::Keep
                        }
                    },
                    Event::Cancel => {
                        t.set_text(crate::strconv::copy_chars(saved));
                        EditEffect::End
                    },
                    Event::Char(c) => {
                        t.insert_char(*c);
                        let ok = crate::value::check_text(&ty, &t.chars);
                        t.set_mark(ok);
                        EditEffect::Keep
                    },
                    Event::Backspace => {
                        t.delete_char();
                        let ok = crate::value::check_text(&ty, &t.chars);
                        t.set_mark(ok);
                        EditEffect::Keep
                    },
                    _ => EditEffect::Keep,
                };
                (
                    Value { ty, var: ValueVariant::Text(t) },
                    EventOut { consumed: true, effect },
                )
            },
        },
    }
}

} // verus!

verus! {

/// The value selected by descending `pos[i .. end]` from `b` and then
/// reading the grid cell the frame `pos[end]` addresses.
pub open spec fn target_value_spec(b: Branch, pos: Seq<Node>, i: int, end: int) -> Option<Value> {
    match descend_spec(b, pos.subrange(i, end)) {
        Some(Branch::Args(a)) => match pos[end] {
            Node::Args(name, col) => cell_by_cindex(a, name@, col as int),
            _ => None,
        },
        _ => None,
    }
}

/// `b1` is `b0` with exactly the value addressed by `pos[i .. end]` and
/// the selector `pos[end]` replaced by `v1`: every container along the
/// path keeps its labels and every sibling entry, and only the addressed
/// cell's value changes.
pub open spec fn replaced_at(
    b0: Branch,
    b1: Branch,
    pos: Seq<Node>,
    i: int,
    end: int,
    v1: Value,
) -> bool
    decreases end - i,
{
    if i >= end {
        match (b0, b1) {
            (Branch::Args(a0), Branch::Args(a1)) => match pos[end] {
                Node::Args(name, col) => {
                    let ri = crate::args::row_find(a0, name@);
                    let k = crate::args::cell_idx(a0.cells@, ri, col as int);
                    &&& ri >= 0
                    &&& k >= 0
                    &&& a1.names == a0.names
                    &&& a1.columns == a0.columns
                    &&& a1.cells@ == a0.cells@.update(
                        k,
                        crate::args::Cell {
                            row: a0.cells@[k].row,
                            col: a0.cells@[k].col,
                            value: v1,
                        },
                    )
                },
                _ => false,
            },
            _ => false,
        }
    } else {
        match (b0, b1) {
            (Branch::Tree(t0), Branch::Tree(t1)) => {
                let idx = t0.branches.key_find(node_label(pos[i]));
                &&& idx >= 0
                &&& t1.branches.entries@.len() == t0.branches.entries@.len()
                &&& forall|j: int|
                    0 <= j < t0.branches.entries@.len() && j != idx
                        ==> t1.branches.entries@[j] == t0.branches.entries@[j]
                &&& t1.branches.entries@[idx].0 == t0.branches.entries@[idx].0
                &&& replaced_at(
                    t0.branches.entries@[idx].1,
                    t1.branches.entries@[idx].1,
                    pos,
                    i + 1,
                    end,
                    v1,
                )
            },
            (Branch::Array(x0), Branch::Array(x1)) => {
                let idx = x0.tree.branches.key_find(node_label(pos[i]));
                &&& idx >= 0
                &&& x1.def == x0.def
                &&& x1.tree.branches.entries@.len() == x0.tree.branches.entries@.len()
                &&& forall|j: int|
                    0 <= j < x0.tree.branches.entries@.len() && j != idx
                        ==> x1.tree.branches.entries@[j] == x0.tree.branches.entries@[j]
                &&& x1.tree.branches.entries@[idx].0 == x0.tree.branches.entries@[idx].0
                &&& replaced_at(
                    x0.tree.branches.entries@[idx].1,
                    x1.tree.branches.entries@[idx].1,
                    pos,
                    i + 1,
                    end,
                    v1,
                )
            },
            (Branch::Args(a0), Branch::Args(a1)) => match pos[i] {
                Node::Args(name, col) => {
                    let ri = crate::args::row_find(a0, name@);
                    let k = crate::args::cell_idx(a0.cells@, ri, col as int);
                    &&& ri >= 0
                    &&& k >= 0
                    &&& a1.names == a0.names
                    &&& a1.columns == a0.columns
                    &&& a1.cells@.len() == a0.cells@.len()
                    &&& forall|j: int|
                        0 <= j < a0.cells@.len() && j != k ==> a1.cells@[j] == a0.cells@[j]
                    &&& a1.cells@[k].row == a0.cells@[k].row
                    &&& a1.cells@[k].col == a0.cells@[k].col
                    &&& a1.cells@[k].value.ty == a0.cells@[k].value.ty
                    &&& a0.cells@[k].value.var matches ValueVariant::Struct(x0) && (
                    a1.cells@[k].value.var matches ValueVariant::Struct(x1) && replaced_at(
                        *x0,
                        *x1,
                        pos,
                        i + 1,
                        end,
                        v1,
                    ))
                },
                _ => false,
            },
            _ => false,
        }
    }
}

/// Apply one edit event to the value addressed by `pos[i .. end]`.
fn edit_value_in(
    b: Branch,
    pos: &Vec<Node>,
    i: usize,
    end: usize,
    event: &Event,
    input: &Option<Vec<char>>,
) -> (r: (Branch, EventOut))
    requires
        i <= end < pos@.len(),
        crate::branch::branch_wf(b),
        target_value_spec(b, pos@, i as int, end as int) is Some,
    ensures
        crate::branch::branch_wf(r.0),
        exists|v1: Value|
            #[trigger] replaced_at(b, r.0, pos@, i as int, end as int, v1)
                && crate::value::value_wf(v1) && value_event_spec(
                target_value_spec(b, pos@, i as int, end as int).unwrap(),
                v1,
                *event,
                input_view(*input),
                r.1,
            ),
    decreases end - i,
{
    let ghost path = pos@.subrange(i as int, end as int);
    proof {
        if i < end {
            assert(path[0] == pos@[i as int]);
            assert(path.skip(1) =~= pos@.subrange(i as int + 1, end as int));
        } else {
            assert(path =~= Seq::<Node>::empty());
        }
    }
    if i == end {
        match b {
            Branch::Args(mut a) => {
                let ghost a0 = a;
                let (name, col) = match &pos[end] {
                    Node::Args(s, c) => (s, *c),
                    Node::Tree(_) => {
                        proof {
                            assert(false);
                        }
                        vstd::pervasive::unreached()
                    },
                };
                let ri = match crate::labels::find_string(&a.names, name.as_str()) {
                    Some(ri) => ri,
                    None => {
                        proof {
                            assert(false);
                        }
                        vstd::pervasive::unreached()
                    },
                };
                let k = match a.find_cell(ri, col) {
                    Some(k) => k,
                    None => {
                        proof {
                            assert(false);
                        }
                        vstd::pervasive::unreached()
                    },
                };
                proof {
                    crate::args::lemma_cell_idx(a.cells@, ri as int, col as int);
                }
                let cell = a.cells.remove(k);
                let crate::args::Cell { row, col: ccol, value } = cell;
                let ghost v0 = value;
                let (nv, out) = value_event(value, event, input);
                let ghost gv1 = nv;
                a.cells.insert(k, crate::args::Cell { row, col: ccol, value: nv });
                proof {
                    assert(a.cells@ =~= a0.cells@.update(
                        k as int,
                        crate::args::Cell { row, col: ccol, value: gv1 },
                    ));
                    assert(descend_spec(b, path) == Some(b));
                    assert(target_value_spec(b, pos@, i as int, end as int) == Some(v0));
                    assert(replaced_at(b, Branch::Args(a), pos@, i as int, end as int, gv1));
                    assert(value_event_spec(v0, gv1, *event, input_view(*input), out));
                    assert(exists|v1: Value|
                        #[trigger] replaced_at(b, Branch::Args(a), pos@, i as int, end as int, v1)
                            && crate::value::value_wf(v1) && value_event_spec(
                            target_value_spec(b, pos@, i as int, end as int).unwrap(),
                            v1,
                            *event,
                            input_view(*input),
                            out,
                        )) by {
                        assert(replaced_at(b, Branch::Args(a), pos@, i as int, end as int, gv1)
                            && crate::value::value_wf(gv1) && value_event_spec(
                            target_value_spec(b, pos@, i as int, end as int).unwrap(),
                            gv1,
                            *event,
                            input_view(*input),
                            out,
                        ));
                    }
                    assert(crate::branch::branch_wf(Branch::Args(a))) by {
                        assert(crate::args::args_wf(a0));
                        assert(forall|j: int|
                            0 <= j < a.cells@.len() ==> crate::value::value_wf(
                                (#[trigger] a.cells@[j]).value,
                            ));
                    }
                }
                let res = (Branch::Args(a), out);
                proof {
                    assert(exists|v1: Value|
                        #[trigger] replaced_at(b, res.0, pos@, i as int, end as int, v1)
                            && crate::value::value_wf(v1) && value_event_spec(
                            target_value_spec(b, pos@, i as int, end as int).unwrap(),
                            v1,
                            *event,
                            input_view(*input),
                            res.1,
                        )) by {
                        assert(replaced_at(b, res.0, pos@, i as int, end as int, gv1));
                        assert(crate::value::value_wf(gv1));
                        assert(value_event_spec(
                            target_value_spec(b, pos@, i as int, end as int).unwrap(),
                            gv1,
                            *event,
                            input_view(*input),
                            res.1,
                        ));
                    }
                }
                res
            },
            other => {
                proof {
                    assert(false);
                }
                vstd::pervasive::unreached()
            },
        }
    } else {
        match b {
            Branch::Tree(mut t) => {
                let ghost t0 = t;
                let last = self_label(&pos[i]);
                let idx = match t.branches.index_of(last.as_str()) {
                    Some(idx) => idx,
                    None => {
                        proof {
                            assert(false);
                        }
                        vstd::pervasive::unreached()
                    },
                };
                proof {
                    crate::labels::lemma_find_idx(t.branches.keys(), node_label(pos@[i as int]));
                }
                let pair = t.branches.take_at(idx);
                proof {
                    assert(step_spec(b, pos@[i as int]) == Some(pair.1));
                    assert(descend_spec(b, path) == descend_spec(
                        pair.1,
                        pos@.subrange(i as int + 1, end as int),
                    ));
                    assert(target_value_spec(b, pos@, i as int, end as int)
                        == target_value_spec(pair.1, pos@, i as int + 1, end as int));
                }
                let (sub1, out) = edit_value_in(pair.1, pos, i + 1, end, event, input);
                let ghost gsub1 = sub1;
                t.branches.put_at(idx, pair.0, sub1);
                proof {
                    assert(t.branches.entries@ =~= t0.branches.entries@.update(
                        idx as int,
                        (t0.branches.entries@[idx as int].0, gsub1),
                    ));
                }
                let ghost v1w = choose|v1: Value|
                    #[trigger] replaced_at(
                        t0.branches.entries@[idx as int].1,
                        gsub1,
                        pos@,
                        i as int + 1,
                        end as int,
                        v1,
                    ) && crate::value::value_wf(v1) && value_event_spec(
                        target_value_spec(
                            t0.branches.entries@[idx as int].1,
                            pos@,
                            i as int + 1,
                            end as int,
                        ).unwrap(),
                        v1,
                        *event,
                        input_view(*input),
                        out,
                    );
                proof {
                    assert(replaced_at(b, Branch::Tree(t), pos@, i as int, end as int, v1w));
                    assert(value_event_spec(
                        target_value_spec(b, pos@, i as int, end as int).unwrap(),
                        v1w,
                        *event,
                        input_view(*input),
                        out,
                    ));
                    assert(exists|v1: Value|
                        #[trigger] replaced_at(b, Branch::Tree(t), pos@, i as int, end as int, v1)
                            && crate::value::value_wf(v1) && value_event_spec(
                            target_value_spec(b, pos@, i as int, end as int).unwrap(),
                            v1,
                            *event,
                            input_view(*input),
                            out,
                        )) by {
                        assert(replaced_at(b, Branch::Tree(t), pos@, i as int, end as int, v1w)
                            && crate::value::value_wf(v1w) && value_event_spec(
                            target_value_spec(b, pos@, i as int, end as int).unwrap(),
                            v1w,
                            *event,
                            input_view(*input),
                            out,
                        ));
                    }
                    assert(crate::branch::branch_wf(Branch::Tree(t))) by {
                        assert(crate::tree::branches_wf(t0.branches));
                        assert(t.branches.keys() =~= t0.branches.keys());
                        assert(forall|j: int|
                            0 <= j < t.branches.entries@.len() ==> crate::branch::branch_wf(
                                (#[trigger] t.branches.entries@[j]).1,
                            ));
                    }
                }
                let res = (Branch::Tree(t), out);
                proof {
                    assert(exists|v1: Value|
                        #[trigger] replaced_at(b, res.0, pos@, i as int, end as int, v1)
                            && crate::value::value_wf(v1) && value_event_spec(
                            target_value_spec(b, pos@, i as int, end as int).unwrap(),
                            v1,
                            *event,
                            input_view(*input),
                            res.1,
                        )) by {
                        assert(replaced_at(b, res.0, pos@, i as int, end as int, v1w));
                        assert(crate::value::value_wf(v1w));
                        assert(value_event_spec(
                            target_value_spec(b, pos@, i as int, end as int).unwrap(),
                            v1w,
                            *event,
                            input_view(*input),
                            res.1,
                        ));
                    }
                }
                res
            },
            Branch::Array(mut arr) => {
                let ghost x0 = arr;
                let last = self_label(&pos[i]);
                let idx = match arr.tree.branches.index_of(last.as_str()) {
                    Some(idx) => idx,
                    None => {
                        proof {
                            assert(false);
                        }
                        vstd::pervasive::unreached()
                    },
                };
                proof {
                    crate::labels::lemma_find_idx(
                        arr.tree.branches.keys(),
                        node_label(pos@[i as int]),
                    );
                    assert(crate::array::array_wf(x0));
                    assert(crate::tree::branches_wf(x0.tree.branches));
                    assert(crate::branch::branch_wf(x0.tree.branches.entries@[idx as int].1));
                }
                let pair = arr.tree.branches.take_at(idx);
                proof {
                    assert(step_spec(b, pos@[i as int]) == Some(pair.1));
                    assert(descend_spec(b, path) == descend_spec(
                        pair.1,
                        pos@.subrange(i as int + 1, end as int),
                    ));
                    assert(target_value_spec(b, pos@, i as int, end as int)
                        == target_value_spec(pair.1, pos@, i as int + 1, end as int));
                }
                let (sub1, out) = edit_value_in(pair.1, pos, i + 1, end, event, input);
                let ghost gsub1 = sub1;
                arr.tree.branches.put_at(idx, pair.0, sub1);
                proof {
                    assert(arr.tree.branches.entries@ =~= x0.tree.branches.entries@.update(
                        idx as int,
                        (x0.tree.branches.entries@[idx as int].0, gsub1),
                    ));
                }
                let ghost v1w = choose|v1: Value|
                    #[trigger] replaced_at(
                        x0.tree.branches.entries@[idx as int].1,
                        gsub1,
                        pos@,
                        i as int + 1,
                        end as int,
                        v1,
                    ) && crate::value::value_wf(v1) && value_event_spec(
                        target_value_spec(
                            x0.tree.branches.entries@[idx as int].1,
                            pos@,
                            i as int + 1,
                            end as int,
                        ).unwrap(),
                        v1,
                        *event,
                        input_view(*input),
                        out,
                    );
                proof {
                    assert(replaced_at(b, Branch::Array(arr), pos@, i as int, end as int, v1w));
                    assert(value_event_spec(
                        target_value_spec(b, pos@, i as int, end as int).unwrap(),
                        v1w,
                        *event,
                        input_view(*input),
                        out,
                    ));
                    assert(exists|v1: Value|
                        #[trigger] replaced_at(b, Branch::Array(arr), pos@, i as int, end as int, v1)
                            && crate::value::value_wf(v1) && value_event_spec(
                            target_value_spec(b, pos@, i as int, end as int).unwrap(),
                            v1,
                            *event,
                            input_view(*input),
                            out,
                        )) by {
                        assert(replaced_at(b, Branch::Array(arr), pos@, i as int, end as int, v1w)
                            && crate::value::value_wf(v1w) && value_event_spec(
                            target_value_spec(b, pos@, i as int, end as int).unwrap(),
                            v1w,
                            *event,
                            input_view(*input),
                            out,
                        ));
                    }
                    assert(crate::branch::branch_wf(Branch::Array(arr))) by {
                        assert(crate::array::array_wf(x0));
                        assert(arr.tree.branches.keys() =~= x0.tree.branches.keys());
                        assert(crate::array::dense_keys(arr.tree.branches)) by {
                            assert(forall|j: int|
                                0 <= j < arr.tree.branches.entries@.len()
                                    ==> arr.tree.branches.keys()[j]
                                    == x0.tree.branches.keys()[j]);
                        }
                        assert(crate::value::value_wf(*arr.def));
                        assert(forall|j: int|
                            0 <= j < arr.tree.branches.entries@.len()
                                ==> crate::branch::branch_wf(
                                (#[trigger] arr.tree.branches.entries@[j]).1,
                            ));
                        assert(crate::tree::tree_wf(arr.tree));
                        assert(crate::array::array_wf(arr));
                    }
                }
                let res = (Branch::Array(arr), out);
                proof {
                    assert(exists|v1: Value|
                        #[trigger] replaced_at(b, res.0, pos@, i as int, end as int, v1)
                            && crate::value::value_wf(v1) && value_event_spec(
                            target_value_spec(b, pos@, i as int, end as int).unwrap(),
                            v1,
                            *event,
                            input_view(*input),
                            res.1,
                        )) by {
                        assert(replaced_at(b, res.0, pos@, i as int, end as int, v1w));
                        assert(crate::value::value_wf(v1w));
                        assert(value_event_spec(
                            target_value_spec(b, pos@, i as int, end as int).unwrap(),
                            v1w,
                            *event,
                            input_view(*input),
                            res.1,
                        ));
                    }
                }
                res
            },
            Branch::Args(mut a) => {
                let ghost a0 = a;
                let (name, col) = match &pos[i] {
                    Node::Args(s, c) => (s, *c),
                    Node::Tree(_) => {
                        proof {
                            assert(false);
                        }
                        vstd::pervasive::unreached()
                    },
                };
                let ri = match crate::labels::find_string(&a.names, name.as_str()) {
                    Some(ri) => ri,
                    None => {
                        proof {
                            assert(false);
                        }
                        vstd::pervasive::unreached()
                    },
                };
                let k = match a.find_cell(ri, col) {
                    Some(k) => k,
                    None => {
                        proof {
                            assert(false);
                        }
                        vstd::pervasive::unreached()
                    },
                };
                proof {
                    crate::args::lemma_cell_idx(a.cells@, ri as int, col as int);
                }
                let cell = a.cells.remove(k);
                let crate::args::Cell { row, col: ccol, value } = cell;
                let Value { ty, var } = value;
                let bx = match var {
                    ValueVariant::Struct(bx) => bx,
                    _ => {
                        proof {
                            assert(false);
                        }
                        vstd::pervasive::unreached()
                    },
                };
                proof {
                    assert(step_spec(b, pos@[i as int]) == Some(*bx));
                    assert(descend_spec(b, path) == descend_spec(
                        *bx,
                        pos@.subrange(i as int + 1, end as int),
                    ));
                    assert(target_value_spec(b, pos@, i as int, end as int)
                        == target_value_spec(*bx, pos@, i as int + 1, end as int));
                    assert(crate::value::value_wf(a0.cells@[k as int].value));
                    assert(crate::branch::branch_wf(*bx));
                }
                let (sub1, out) = edit_value_in(*bx, pos, i + 1, end, event, input);
                let ghost gsub1 = sub1;
                let nv = Value { ty, var: ValueVariant::Struct(Box::new(sub1)) };
                a.cells.insert(k, crate::args::Cell { row, col: ccol, value: nv });
                proof {
                    let sub0 = a0.cells@[k as int].value.var->Struct_0;
                    assert(a.cells@ =~= a0.cells@.update(
                        k as int,
                        crate::args::Cell {
                            row,
                            col: ccol,
                            value: Value { ty, var: ValueVariant::Struct(Box::new(gsub1)) },
                        },
                    ));
                }
                let ghost v1w = choose|v1: Value|
                    #[trigger] replaced_at(
                        *(a0.cells@[k as int].value.var->Struct_0),
                        gsub1,
                        pos@,
                        i as int + 1,
                        end as int,
                        v1,
                    ) && crate::value::value_wf(v1) && value_event_spec(
                        target_value_spec(
                            *(a0.cells@[k as int].value.var->Struct_0),
                            pos@,
                            i as int + 1,
                            end as int,
                        ).unwrap(),
                        v1,
                        *event,
                        input_view(*input),
                        out,
                    );
                proof {
                    assert(replaced_at(b, Branch::Args(a), pos@, i as int, end as int, v1w));
                    assert(value_event_spec(
                        target_value_spec(b, pos@, i as int, end as int).unwrap(),
                        v1w,
                        *event,
                        input_view(*input),
                        out,
                    ));
                    assert(exists|v1: Value|
                        #[trigger] replaced_at(b, Branch::Args(a), pos@, i as int, end as int, v1)
                            && crate::value::value_wf(v1) && value_event_spec(
                            target_value_spec(b, pos@, i as int, end as int).unwrap(),
                            v1,
                            *event,
                            input_view(*input),
                            out,
                        )) by {
                        assert(replaced_at(b, Branch::Args(a), pos@, i as int, end as int, v1w)
                            && crate::value::value_wf(v1w) && value_event_spec(
                            target_value_spec(b, pos@, i as int, end as int).unwrap(),
                            v1w,
                            *event,
                            input_view(*input),
                            out,
                        ));
                    }
                    assert(crate::branch::branch_wf(Branch::Args(a))) by {
                        assert(crate::args::args_wf(a0));
                        assert(crate::value::value_wf(a0.cells@[k as int].value));
                        assert(forall|j: int|
                            0 <= j < a.cells@.len() ==> crate::value::value_wf(
                                (#[trigger] a.cells@[j]).value,
                            ));
                    }
                }
                let res = (Branch::Args(a), out);
                proof {
                    assert(exists|v1: Value|
                        #[trigger] replaced_at(b, res.0, pos@, i as int, end as int, v1)
                            && crate::value::value_wf(v1) && value_event_spec(
                            target_value_spec(b, pos@, i as int, end as int).unwrap(),
                            v1,
                            *event,
                            input_view(*input),
                            res.1,
                        )) by {
                        assert(replaced_at(b, res.0, pos@, i as int, end as int, v1w));
                        assert(crate::value::value_wf(v1w));
                        assert(value_event_spec(
                            target_value_spec(b, pos@, i as int, end as int).unwrap(),
                            v1w,
                            *event,
                            input_view(*input),
                            res.1,
                        ));
                    }
                }
                res
            },
        }
    }
}

/// The label of a node, by reference.
fn self_label<'a>(n: &'a Node) -> (r: &'a String)
    ensures
        r@ == node_label(*n),
{
    match n {
        Node::Tree(s) => s,
        Node::Args(s, _) => s,
    }
}

} // verus!

verus! {

/// The deletion's effect on the selected collection value: the element
/// under `key` is removed (with renumbering) and `r` names the refocus
/// key.
pub open spec fn delete_value_rel(v0: Value, v1: Value, key: Seq<char>, r: Option<String>) -> bool {
    &&& v1.ty == v0.ty
    &&& v0.var matches ValueVariant::Struct(b0) && (*b0 matches Branch::Array(a0) && (
    v1.var matches ValueVariant::Struct(b1) && (*b1 matches Branch::Array(a1)
        && crate::array::removed_rel(a0, a1, key, r))))
}

/// Remove the element under `key` from the collection value addressed by
/// `pos[i .. end]`.
fn remove_in_array_at(
    b: Branch,
    pos: &Vec<Node>,
    i: usize,
    end: usize,
    key: &String,
) -> (r: (Branch, Option<String>))
    requires
        i <= end < pos@.len(),
        crate::branch::branch_wf(b),
        target_value_spec(b, pos@, i as int, end as int) matches Some(v0) && (v0.var
            matches ValueVariant::Struct(x) && *x is Array),
    ensures
        crate::branch::branch_wf(r.0),
        exists|v1: Value|
            #[trigger] replaced_at(b, r.0, pos@, i as int, end as int, v1)
                && crate::value::value_wf(v1) && delete_value_rel(
                target_value_spec(b, pos@, i as int, end as int).unwrap(),
                v1,
                key@,
                r.1,
            ),
    decreases end - i,
{
    let ghost path = pos@.subrange(i as int, end as int);
    proof {
        if i < end {
            assert(path[0] == pos@[i as int]);
            assert(path.skip(1) =~= pos@.subrange(i as int + 1, end as int));
        } else {
            assert(path =~= Seq::<Node>::empty());
        }
    }
    if i == end {
        match b {
            Branch::Args(mut a) => {
                let ghost a0 = a;
                let (name, col) = match &pos[end] {
                    Node::Args(s, c) => (s, *c),
                    Node::Tree(_) => {
                        proof {
                            assert(false);
                        }
                        vstd::pervasive::unreached()
                    },
                };
                let ri = match crate::labels::find_string(&a.names, name.as_str()) {
                    Some(ri) => ri,
                    None => {
                        proof {
                            assert(false);
                        }
                        vstd::pervasive::unreached()
                    },
                };
                let k = match a.find_cell(ri, col) {
                    Some(k) => k,
                    None => {
                        proof {
                            assert(false);
                        }
                        vstd::pervasive::unreached()
                    },
                };
                proof {
                    crate::args::lemma_cell_idx(a.cells@, ri as int, col as int);
                    assert(descend_spec(b, path) == Some(b));
                    assert(crate::value::value_wf(a.cells@[k as int].value));
                }
                let cell = a.cells.remove(k);
                let crate::args::Cell { row, col: ccol, value } = cell;
                let ghost v0 = value;
                let Value { ty, var } = value;
                let arrb = match var {
                    ValueVariant::Struct(bx) => *bx,
                    _ => {
                        proof {
                            assert(false);
                        }
                        vstd::pervasive::unreached()
                    },
                };
                let mut arr = match arrb {
                    Branch::Array(arr) => arr,
                    _ => {
                        proof {
                            assert(false);
                        }
                        vstd::pervasive::unreached()
                    },
                };
                let refocus = arr.remove(key.as_str());
                let nv = Value { ty, var: ValueVariant::Struct(Box::new(Branch::Array(arr))) };
                let ghost gv1 = nv;
                a.cells.insert(k, crate::args::Cell { row, col: ccol, value: nv });
                let res = (Branch::Args(a), refocus);
                proof {
                    assert(a.cells@ =~= a0.cells@.update(
                        k as int,
                        crate::args::Cell { row, col: ccol, value: gv1 },
                    ));
                    assert(target_value_spec(b, pos@, i as int, end as int) == Some(v0));
                    assert(replaced_at(b, res.0, pos@, i as int, end as int, gv1));
                    assert(crate::value::value_wf(gv1));
                    assert(delete_value_rel(v0, gv1, key@, res.1));
                    assert(crate::branch::branch_wf(res.0)) by {
                        assert(crate::args::args_wf(a0));
                        assert(forall|j: int|
                            0 <= j < a.cells@.len() ==> crate::value::value_wf(
                                (#[trigger] a.cells@[j]).value,
                            ));
                    }
                    assert(exists|v1: Value|
                        #[trigger] replaced_at(b, res.0, pos@, i as int, end as int, v1)
                            && crate::value::value_wf(v1) && delete_value_rel(
                            target_value_spec(b, pos@, i as int, end as int).unwrap(),
                            v1,
                            key@,
                            res.1,
                        )) by {
                        assert(replaced_at(b, res.0, pos@, i as int, end as int, gv1));
                    }
                }
                res
            },
            other => {
                proof {
                    assert(false);
                }
                vstd::pervasive::unreached()
            },
        }
    } else {
        match b {
            Branch::Tree(mut t) => {
                let ghost t0 = t;
                let last = self_label(&pos[i]);
                let idx = match t.branches.index_of(last.as_str()) {
                    Some(idx) => idx,
                    None => {
                        proof {
                            assert(false);
                        }
                        vstd::pervasive::unreached()
                    },
                };
                proof {
                    crate::labels::lemma_find_idx(t.branches.keys(), node_label(pos@[i as int]));
                }
                let pair = t.branches.take_at(idx);
                proof {
                    assert(step_spec(b, pos@[i as int]) == Some(pair.1));
                    assert(descend_spec(b, path) == descend_spec(
                        pair.1,
                        pos@.subrange(i as int + 1, end as int),
                    ));
                    assert(target_value_spec(b, pos@, i as int, end as int)
                        == target_value_spec(pair.1, pos@, i as int + 1, end as int));
                }
                let (sub1, refocus) = remove_in_array_at(pair.1, pos, i + 1, end, key);
                let ghost gsub1 = sub1;
                t.branches.put_at(idx, pair.0, sub1);
                let ghost v1w = choose|v1: Value|
                    #[trigger] replaced_at(
                        t0.branches.entries@[idx as int].1,
                        gsub1,
                        pos@,
                        i as int + 1,
                        end as int,
                        v1,
                    ) && crate::value::value_wf(v1) && delete_value_rel(
                        target_value_spec(
                            t0.branches.entries@[idx as int].1,
                            pos@,
                            i as int + 1,
                            end as int,
                        ).unwrap(),
                        v1,
                        key@,
                        refocus,
                    );
                let res = (Branch::Tree(t), refocus);
                proof {
                    assert(t.branches.entries@ =~= t0.branches.entries@.update(
                        idx as int,
                        (t0.branches.entries@[idx as int].0, gsub1),
                    ));
                    assert(replaced_at(b, res.0, pos@, i as int, end as int, v1w));
                    assert(crate::branch::branch_wf(res.0)) by {
                        assert(crate::tree::branches_wf(t0.branches));
                        assert(t.branches.keys() =~= t0.branches.keys());
                        assert(forall|j: int|
                            0 <= j < t.branches.entries@.len() ==> crate::branch::branch_wf(
                                (#[trigger] t.branches.entries@[j]).1,
                            ));
                    }
                    assert(exists|v1: Value|
                        #[trigger] replaced_at(b, res.0, pos@, i as int, end as int, v1)
                            && crate::value::value_wf(v1) && delete_value_rel(
                            target_value_spec(b, pos@, i as int, end as int).unwrap(),
                            v1,
                            key@,
                            res.1,
                        )) by {
                        assert(replaced_at(b, res.0, pos@, i as int, end as int, v1w));
                        assert(delete_value_rel(
                            target_value_spec(b, pos@, i as int, end as int).unwrap(),
                            v1w,
                            key@,
                            res.1,
                        ));
                    }
                }
                res
            },
            Branch::Array(mut arr) => {
                let ghost x0 = arr;
                let last = self_label(&pos[i]);
                let idx = match arr.tree.branches.index_of(last.as_str()) {
                    Some(idx) => idx,
                    None => {
                        proof {
                            assert(false);
                        }
                        vstd::pervasive::unreached()
                    },
                };
                proof {
                    crate::labels::lemma_find_idx(
                        arr.tree.branches.keys(),
                        node_label(pos@[i as int]),
                    );
                    assert(crate::array::array_wf(x0));
                    assert(crate::tree::branches_wf(x0.tree.branches));
                    assert(crate::branch::branch_wf(x0.tree.branches.entries@[idx as int].1));
                }
                let pair = arr.tree.branches.take_at(idx);
                proof {
                    assert(step_spec(b, pos@[i as int]) == Some(pair.1));
                    assert(descend_spec(b, path) == descend_spec(
                        pair.1,
                        pos@.subrange(i as int + 1, end as int),
                    ));
                    assert(target_value_spec(b, pos@, i as int, end as int)
                        == target_value_spec(pair.1, pos@, i as int + 1, end as int));
                }
                let (sub1, refocus) = remove_in_array_at(pair.1, pos, i + 1, end, key);
                let ghost gsub1 = sub1;
                arr.tree.branches.put_at(idx, pair.0, sub1);
                let ghost v1w = choose|v1: Value|
                    #[trigger] replaced_at(
                        x0.tree.branches.entries@[idx as int].1,
                        gsub1,
                        pos@,
                        i as int + 1,
                        end as int,
                        v1,
                    ) && crate::value::value_wf(v1) && delete_value_rel(
                        target_value_spec(
                            x0.tree.branches.entries@[idx as int].1,
                            pos@,
                            i as int + 1,
                            end as int,
                        ).unwrap(),
                        v1,
                        key@,
                        refocus,
                    );
                let res = (Branch::Array(arr), refocus);
                proof {
                    assert(arr.tree.branches.entries@ =~= x0.tree.branches.entries@.update(
                        idx as int,
                        (x0.tree.branches.entries@[idx as int].0, gsub1),
                    ));
                    assert(replaced_at(b, res.0, pos@, i as int, end as int, v1w));
                    assert(crate::branch::branch_wf(res.0)) by {
                        assert(crate::array::array_wf(x0));
                        assert(arr.tree.branches.keys() =~= x0.tree.branches.keys());
                        assert(crate::array::dense_keys(arr.tree.branches)) by {
                            assert(forall|j: int|
                                0 <= j < arr.tree.branches.entries@.len()
                                    ==> arr.tree.branches.keys()[j]
                                    == x0.tree.branches.keys()[j]);
                        }
                        assert(crate::value::value_wf(*arr.def));
                        assert(forall|j: int|
                            0 <= j < arr.tree.branches.entries@.len()
                                ==> crate::branch::branch_wf(
                                (#[trigger] arr.tree.branches.entries@[j]).1,
                            ));
                        assert(crate::tree::tree_wf(arr.tree));
                        assert(crate::array::array_wf(arr));
                    }
                    assert(exists|v1: Value|
                        #[trigger] replaced_at(b, res.0, pos@, i as int, end as int, v1)
                            && crate::value::value_wf(v1) && delete_value_rel(
                            target_value_spec(b, pos@, i as int, end as int).unwrap(),
                            v1,
                            key@,
                            res.1,
                        )) by {
                        assert(replaced_at(b, res.0, pos@, i as int, end as int, v1w));
                        assert(delete_value_rel(
                            target_value_spec(b, pos@, i as int, end as int).unwrap(),
                            v1w,
                            key@,
                            res.1,
                        ));
                    }
                }
                res
            },
            Branch::Args(mut a) => {
                let ghost a0 = a;
                let (name, col) = match &pos[i] {
                    Node::Args(s, c) => (s, *c),
                    Node::Tree(_) => {
                        proof {
                            assert(false);
                        }
                        vstd::pervasive::unreached()
                    },
                };
                let ri = match crate::labels::find_string(&a.names, name.as_str()) {
                    Some(ri) => ri,
                    None => {
                        proof {
                            assert(false);
                        }
                        vstd::pervasive::unreached()
                    },
                };
                let k = match a.find_cell(ri, col) {
                    Some(k) => k,
                    None => {
                        proof {
                            assert(false);
                        }
                        vstd::pervasive::unreached()
                    },
                };
                proof {
                    crate::args::lemma_cell_idx(a.cells@, ri as int, col as int);
                }
                let cell = a.cells.remove(k);
                let crate::args::Cell { row, col: ccol, value } = cell;
                let Value { ty, var } = value;
                let bx = match var {
                    ValueVariant::Struct(bx) => bx,
                    _ => {
                        proof {
                            assert(false);
                        }
                        vstd::pervasive::unreached()
                    },
                };
                proof {
                    assert(step_spec(b, pos@[i as int]) == Some(*bx));
                    assert(descend_spec(b, path) == descend_spec(
                        *bx,
                        pos@.subrange(i as int + 1, end as int),
                    ));
                    assert(target_value_spec(b, pos@, i as int, end as int)
                        == target_value_spec(*bx, pos@, i as int + 1, end as int));
                    assert(crate::value::value_wf(a0.cells@[k as int].value));
                    assert(crate::branch::branch_wf(*bx));
                }
                let (sub1, refocus) = remove_in_array_at(*bx, pos, i + 1, end, key);
                let ghost gsub1 = sub1;
                let nv = Value { ty, var: ValueVariant::Struct(Box::new(sub1)) };
                a.cells.insert(k, crate::args::Cell { row, col: ccol, value: nv });
                let ghost v1w = choose|v1: Value|
                    #[trigger] replaced_at(
                        *(a0.cells@[k as int].value.var->Struct_0),
                        gsub1,
                        pos@,
                        i as int + 1,
                        end as int,
                        v1,
                    ) && crate::value::value_wf(v1) && delete_value_rel(
                        target_value_spec(
                            *(a0.cells@[k as int].value.var->Struct_0),
                            pos@,
                            i as int + 1,
                            end as int,
                        ).unwrap(),
                        v1,
                        key@,
                        refocus,
                    );
                let res = (Branch::Args(a), refocus);
                proof {
                    assert(a.cells@ =~= a0.cells@.update(
                        k as int,
                        crate::args::Cell {
                            row,
                            col: ccol,
                            value: Value { ty, var: ValueVariant::Struct(Box::new(gsub1)) },
                        },
                    ));
                    assert(replaced_at(b, res.0, pos@, i as int, end as int, v1w));
                    assert(crate::branch::branch_wf(res.0)) by {
                        assert(crate::args::args_wf(a0));
                        assert(crate::value::value_wf(a0.cells@[k as int].value));
                        assert(forall|j: int|
                            0 <= j < a.cells@.len() ==> crate::value::value_wf(
                                (#[trigger] a.cells@[j]).value,
                            ));
                    }
                    assert(exists|v1: Value|
                        #[trigger] replaced_at(b, res.0, pos@, i as int, end as int, v1)
                            && crate::value::value_wf(v1) && delete_value_rel(
                            target_value_spec(b, pos@, i as int, end as int).unwrap(),
                            v1,
                            key@,
                            res.1,
                        )) by {
                        assert(replaced_at(b, res.0, pos@, i as int, end as int, v1w));
                        assert(delete_value_rel(
                            target_value_spec(b, pos@, i as int, end as int).unwrap(),
                            v1w,
                            key@,
                            res.1,
                        ));
                    }
                }
                res
            },
        }
    }
}

} // verus!

verus! {

/// `t1` is the tab set `t0` with exactly the value addressed by the
/// stack (down to selector index `end`) replaced by `v1`.
pub open spec fn tabs_replaced(
    t0: Branches,
    t1: Branches,
    pos: Seq<Node>,
    end: int,
    v1: Value,
) -> bool {
    let ti = tab_index_spec(t0, pos);
    &&& ti >= 0
    &&& t1.entries@.len() == t0.entries@.len()
    &&& forall|j: int|
        0 <= j < t0.entries@.len() && j != ti ==> t1.entries@[j] == t0.entries@[j]
    &&& t1.entries@[ti].0 == t0.entries@[ti].0
    &&& replaced_at(t0.entries@[ti].1, t1.entries@[ti].1, pos, 1, end, v1)
}

/// How an edit effect updates the stored snapshot.
pub open spec fn input_after(
    i0: Option<Vec<char>>,
    eff: EditEffect,
    i1: Option<Vec<char>>,
) -> bool {
    match eff {
        EditEffect::Keep => i1 == i0,
        EditEffect::Begin(s) => i1 == Some(s),
        EditEffect::End => i1 is None,
    }
}

impl State {
    /// Route one event to the value the stack selects, updating the tab
    /// set in place and the edit-mode snapshot per the effect. Reports
    /// `Some(consumed)` when a value was selected, `None` when nothing
    /// resolved (and then nothing changed).
    fn apply_value_event(&mut self, tabs: &mut Branches, event: &Event) -> (r: Option<bool>)
        requires
            crate::tree::branches_wf(*old(tabs)),
        ensures
            crate::tree::branches_wf(*final(tabs)),
            final(self).position == old(self).position,
            match sel_value_spec(*old(tabs), old(self).position@, 0) {
                None => r is None && *final(tabs) == *old(tabs) && final(self).input == old(
                    self,
                ).input,
                Some(v0) => r matches Some(consumed) && exists|v1: Value, out: EventOut|
                    {
                        &&& #[trigger] value_event_spec(
                            v0,
                            v1,
                            *event,
                            input_view(old(self).input),
                            out,
                        )
                        &&& crate::value::value_wf(v1)
                        &&& out.consumed == consumed
                        &&& tabs_replaced(
                            *old(tabs),
                            *final(tabs),
                            old(self).position@,
                            old(self).position@.len() - 1,
                            v1,
                        )
                        &&& input_after(old(self).input, out.effect, final(self).input)
                    },
            },
    {
        let found = self.sel_value(&*tabs, 0).is_some();
        if !found {
            return None;
        }
        let ti = match self.current_tab(&*tabs) {
            Some(i) => i,
            None => {
                proof {
                    assert(false);
                }
                vstd::pervasive::unreached()
            },
        };
        let ghost t0 = *tabs;
        let pair = tabs.take_at(ti);
        let end = self.position.len() - 1;
        let (b1, out) = edit_value_in(pair.1, &self.position, 1, end, event, &self.input);
        let ghost gb1 = b1;
        tabs.put_at(ti, pair.0, b1);
        let ghost gout = out;
        let consumed = out.consumed;
        match out.effect {
            EditEffect::Keep => {},
            EditEffect::Begin(s) => {
                self.input = Some(s);
            },
            EditEffect::End => {
                self.input = None;
            },
        }
        proof {
            assert(tabs.entries@ =~= t0.entries@.update(ti as int, (t0.entries@[ti as int].0, gb1)));
            let pos = old(self).position@;
            let v0 = sel_value_spec(t0, pos, 0).unwrap();
            let v1w = choose|v1: Value|
                #[trigger] replaced_at(
                    t0.entries@[ti as int].1,
                    gb1,
                    pos,
                    1,
                    pos.len() - 1,
                    v1,
                ) && crate::value::value_wf(v1) && value_event_spec(
                    target_value_spec(t0.entries@[ti as int].1, pos, 1, pos.len() - 1).unwrap(),
                    v1,
                    *event,
                    input_view(old(self).input),
                    gout,
                );
            assert(tabs_replaced(t0, *tabs, pos, pos.len() - 1, v1w));
            assert(value_event_spec(v0, v1w, *event, input_view(old(self).input), gout));
            assert(input_after(old(self).input, gout.effect, self.input));
            assert(crate::tree::branches_wf(*tabs)) by {
                assert(tabs.keys() =~= t0.keys());
                assert(forall|j: int|
                    0 <= j < tabs.entries@.len() ==> crate::branch::branch_wf(
                        (#[trigger] tabs.entries@[j]).1,
                    ));
            }
        }
        Some(consumed)
    }

    /// Remove the element the stack selects from its enclosing
    /// collection, and refocus or pop the last frame.
    fn delete_handler(&mut self, tabs: &mut Branches)
        requires
            crate::tree::branches_wf(*old(tabs)),
        ensures
            crate::tree::branches_wf(*final(tabs)),
            final(self).input == old(self).input,
            delete_rel(*old(self), *old(tabs), *final(self), *final(tabs)),
    {
        let ok: bool = {
            match self.sel_value(&*tabs, 1) {
                Some(v) => match v.as_array() {
                    Some(arr) => !arr.get_branches().is_empty(),
                    None => false,
                },
                None => false,
            }
        };
        if !ok {
            return;
        }
        let last = self.position.len() - 1;
        let key = self.position[last].text().clone();
        let ti = match self.current_tab(&*tabs) {
            Some(i) => i,
            None => {
                proof {
                    assert(false);
                }
                vstd::pervasive::unreached()
            },
        };
        let ghost t0 = *tabs;
        let pair = tabs.take_at(ti);
        let end = self.position.len() - 2;
        let (b1, refocus) = remove_in_array_at(pair.1, &self.position, 1, end, &key);
        let ghost gb1 = b1;
        tabs.put_at(ti, pair.0, b1);
        let ghost grefocus = refocus;
        proof {
            assert(tabs.entries@ =~= t0.entries@.update(ti as int, (t0.entries@[ti as int].0, gb1)));
            let pos = old(self).position@;
            let v0 = sel_value_spec(t0, pos, 1).unwrap();
            let v1w = choose|v1: Value|
                #[trigger] replaced_at(
                    t0.entries@[ti as int].1,
                    gb1,
                    pos,
                    1,
                    pos.len() - 2,
                    v1,
                ) && crate::value::value_wf(v1) && delete_value_rel(
                    target_value_spec(t0.entries@[ti as int].1, pos, 1, pos.len() - 2).unwrap(),
                    v1,
                    key@,
                    grefocus,
                );
            assert(tabs_replaced(t0, *tabs, pos, pos.len() - 2, v1w));
            assert(delete_value_rel(v0, v1w, node_label(pos.last()), grefocus));
            assert(crate::tree::branches_wf(*tabs)) by {
                assert(tabs.keys() =~= t0.keys());
                assert(forall|j: int|
                    0 <= j < tabs.entries@.len() ==> crate::branch::branch_wf(
                        (#[trigger] tabs.entries@[j]).1,
                    ));
            }
        }
        match refocus {
            Some(s) => {
                match self.position.pop() {
                    Some(mut node) => {
                        node.change_text(s);
                        self.position.push(node);
                        proof {
                            assert(forall|i: int|
                                0 <= i < old(self).position@.len() - 1 ==> self.position@[i]
                                    == old(self).position@[i]);
                        }
                    },
                    None => {},
                }
            },
            None => {
                self.position.pop();
                proof {
                    assert(self.position@ =~= old(self).position@.drop_last());
                }
            },
        }
    }
}

/// Effect of a `Delete`: when the frame below the top addresses a
/// non-empty collection value, its element under the top frame's label
/// is removed, and the top frame is relabeled onto the refocus key or
/// popped; otherwise nothing changes.
pub open spec fn delete_rel(s0: State, t0: Branches, s1: State, t1: Branches) -> bool {
    let pos = s0.position@;
    let target_ok = match sel_value_spec(t0, pos, 1) {
        Some(v0) => v0.var matches ValueVariant::Struct(x) && (*x matches Branch::Array(a)
            && a.tree.branches.entries@.len() > 0),
        None => false,
    };
    if !target_ok {
        s1.position@ == pos && t1 == t0
    } else {
        exists|v1: Value, r: Option<String>|
            {
                &&& #[trigger] delete_value_rel(
                    sel_value_spec(t0, pos, 1).unwrap(),
                    v1,
                    node_label(pos.last()),
                    r,
                )
                &&& crate::value::value_wf(v1)
                &&& tabs_replaced(t0, t1, pos, pos.len() - 2, v1)
                &&& match r {
                    Some(s) => relabeled_last(pos, s1.position@, s@),
                    None => s1.position@ == pos.drop_last(),
                }
            }
    }
}

} // verus!

verus! {

/// Effect of an event while a text edit is in progress: the event goes to
/// the edit handler; the stack never changes.
pub open spec fn edit_applied(s0: State, t0: Branches, s1: State, t1: Branches, ev: Event) -> bool {
    &&& s1.position@ == s0.position@
    &&& match sel_value_spec(t0, s0.position@, 0) {
        None => t1 == t0 && s1.input == s0.input,
        Some(v0) => exists|v1: Value, out: EventOut|
            {
                &&& #[trigger] value_event_spec(v0, v1, ev, input_view(s0.input), out)
                &&& crate::value::value_wf(v1)
                &&& tabs_replaced(t0, t1, s0.position@, s0.position@.len() - 1, v1)
                &&& input_after(s0.input, out.effect, s1.input)
            },
    }
}

/// Effect of `Enter` outside edit mode: the edit handler runs on the
/// selected value; unless it consumed the event, the descent of
/// `NextLevel` (with the Enter column rule) follows against the updated
/// tab set.
pub open spec fn enter_rel(s0: State, t0: Branches, s1: State, t1: Branches) -> bool {
    match sel_value_spec(t0, s0.position@, 0) {
        None => t1 == t0 && s1.input == s0.input && next_level_rel(
            s0.position@,
            s1.position@,
            t0,
            false,
        ),
        Some(v0) => exists|v1: Value, out: EventOut|
            {
                &&& #[trigger] value_event_spec(v0, v1, Event::Enter, input_view(s0.input), out)
                &&& crate::value::value_wf(v1)
                &&& tabs_replaced(t0, t1, s0.position@, s0.position@.len() - 1, v1)
                &&& input_after(s0.input, out.effect, s1.input)
                &&& if out.consumed {
                    s1.position@ == s0.position@
                } else {
                    next_level_rel(s0.position@, s1.position@, t1, false)
                }
            },
    }
}

/// The navigator's transition relation, by event. Outside edit mode the
/// tab, item and level moves only change the stack; `Enter` and `Delete`
/// may also edit the tree; while editing, every event goes to the edit
/// handler.
pub open spec fn transition_rel(
    s0: State,
    t0: Branches,
    s1: State,
    t1: Branches,
    ev: Event,
) -> bool {
    if s0.input is Some {
        edit_applied(s0, t0, s1, t1, ev)
    } else {
        match ev {
            Event::NextTab => t1 == t0 && s1.input == s0.input && tab_rel(
                s0.position@,
                s1.position@,
                t0,
                true,
            ),
            Event::PreviousTab => t1 == t0 && s1.input == s0.input && tab_rel(
                s0.position@,
                s1.position@,
                t0,
                false,
            ),
            Event::NextItem => t1 == t0 && s1.input == s0.input && item_rel(
                s0.position@,
                s1.position@,
                t0,
                true,
            ),
            Event::PreviousItem => t1 == t0 && s1.input == s0.input && item_rel(
                s0.position@,
                s1.position@,
                t0,
                false,
            ),
            Event::NextLevel => t1 == t0 && s1.input == s0.input && next_level_rel(
                s0.position@,
                s1.position@,
                t0,
                true,
            ),
            Event::PreviousLevel => t1 == t0 && s1.input == s0.input && prev_level_rel(
                s0.position@,
                s1.position@,
                t0,
            ),
            Event::Enter => enter_rel(s0, t0, s1, t1),
            Event::Delete => s1.input == s0.input && delete_rel(s0, t0, s1, t1),
            _ => s1 == s0 && t1 == t0,
        }
    }
}

impl State {
    /// Consume one event against the tab set: the navigator's single
    /// entry point.
    pub fn transition(&mut self, event: Event, tabs: &mut Branches)
        requires
            crate::tree::branches_wf(*old(tabs)),
        ensures
            crate::tree::branches_wf(*final(tabs)),
            transition_rel(*old(self), *old(tabs), *final(self), *final(tabs), event),
    {
        if self.input.is_some() {
            let _ = self.apply_value_event(tabs, &event);
            return;
        }
        match event {
            Event::NextTab => self.tab_handler(&*tabs, true),
            Event::PreviousTab => self.tab_handler(&*tabs, false),
            Event::NextItem => self.item_handler(&*tabs, true),
            Event::PreviousItem => self.item_handler(&*tabs, false),
            Event::NextLevel => self.next_level_handler(&*tabs, true),
            Event::PreviousLevel => self.previous_level_handler(&*tabs),
            Event::Enter => {
                match self.apply_value_event(tabs, &event) {
                    Some(true) => {},
                    Some(false) => {
                        self.next_level_handler(&*tabs, false);
                    },
                    None => {
                        self.next_level_handler(&*tabs, false);
                    },
                }
            },
            Event::Delete => self.delete_handler(tabs),
            _ => {},
        }
    }
}

} // verus!

verus! {

/// Frame lemma: after a replacement at a path, resolving the same path
/// finds exactly the new value.
pub proof fn lemma_replaced_target(
    b0: Branch,
    b1: Branch,
    pos: Seq<Node>,
    i: int,
    end: int,
    v1: Value,
)
    requires
        0 <= i <= end < pos.len(),
        replaced_at(b0, b1, pos, i, end, v1),
    ensures
        target_value_spec(b1, pos, i, end) == Some(v1),
    decreases end - i,
{
    let path = pos.subrange(i, end);
    if i == end {
        assert(path =~= Seq::<Node>::empty());
        match (b0, b1) {
            (Branch::Args(a0), Branch::Args(a1)) => match pos[end] {
                Node::Args(name, col) => {
                    let ri = crate::args::row_find(a0, name@);
                    let k = crate::args::cell_idx(a0.cells@, ri, col as int);
                    assert(crate::labels::str_views(a1.names@) == crate::labels::str_views(
                        a0.names@,
                    ));
                    assert(crate::args::row_find(a1, name@) == ri);
                    crate::args::lemma_cell_idx(a0.cells@, ri, col as int);
                    crate::args::lemma_cell_idx_of(a1.cells@, ri, col as int, k);
                    assert(crate::args::cell_idx(a1.cells@, ri, col as int) == k);
                },
                _ => {},
            },
            _ => {},
        }
    } else {
        assert(path[0] == pos[i]);
        assert(path.skip(1) =~= pos.subrange(i + 1, end));
        match (b0, b1) {
            (Branch::Tree(t0), Branch::Tree(t1)) => {
                let idx = t0.branches.key_find(node_label(pos[i]));
                assert(t1.branches.keys() =~= t0.branches.keys());
                crate::labels::lemma_find_idx(t0.branches.keys(), node_label(pos[i]));
                assert(t1.branches.key_find(node_label(pos[i])) == idx);
                assert(step_spec(b1, pos[i]) == Some(t1.branches.entries@[idx].1));
                lemma_replaced_target(
                    t0.branches.entries@[idx].1,
                    t1.branches.entries@[idx].1,
                    pos,
                    i + 1,
                    end,
                    v1,
                );
            },
            (Branch::Array(x0), Branch::Array(x1)) => {
                let idx = x0.tree.branches.key_find(node_label(pos[i]));
                assert(x1.tree.branches.keys() =~= x0.tree.branches.keys());
                crate::labels::lemma_find_idx(x0.tree.branches.keys(), node_label(pos[i]));
                assert(x1.tree.branches.key_find(node_label(pos[i])) == idx);
                assert(step_spec(b1, pos[i]) == Some(x1.tree.branches.entries@[idx].1));
                lemma_replaced_target(
                    x0.tree.branches.entries@[idx].1,
                    x1.tree.branches.entries@[idx].1,
                    pos,
                    i + 1,
                    end,
                    v1,
                );
            },
            (Branch::Args(a0), Branch::Args(a1)) => match pos[i] {
                Node::Args(name, col) => {
                    let ri = crate::args::row_find(a0, name@);
                    let k = crate::args::cell_idx(a0.cells@, ri, col as int);
                    assert(crate::labels::str_views(a1.names@) == crate::labels::str_views(
                        a0.names@,
                    ));
                    assert(crate::args::row_find(a1, name@) == ri);
                    crate::args::lemma_cell_idx(a0.cells@, ri, col as int);
                    crate::args::lemma_cell_idx_of(a1.cells@, ri, col as int, k);
                    assert(crate::args::cell_idx(a1.cells@, ri, col as int) == k);
                    let sub0 = a0.cells@[k].value.var->Struct_0;
                    let sub1 = a1.cells@[k].value.var->Struct_0;
                    assert(step_spec(b1, pos[i]) == Some(*sub1));
                    lemma_replaced_target(*sub0, *sub1, pos, i + 1, end, v1);
                },
                _ => {},
            },
            _ => {},
        }
    }
}

/// Frame lemma at the tab level: after a replacement along the stack, the
/// stack selects exactly the new value.
pub proof fn lemma_tabs_replaced_sel(
    t0: Branches,
    t1: Branches,
    pos: Seq<Node>,
    offset: int,
    v1: Value,
)
    requires
        0 <= offset,
        pos.len() >= offset + 2,
        tabs_replaced(t0, t1, pos, pos.len() - 1 - offset, v1),
    ensures
        sel_value_spec(t1, pos, offset) == Some(v1),
        tab_index_spec(t1, pos) == tab_index_spec(t0, pos),
{
    let ti = tab_index_spec(t0, pos);
    assert(t1.keys() =~= t0.keys());
    assert(tab_index_spec(t1, pos) == ti);
    lemma_replaced_target(t0.entries@[ti].1, t1.entries@[ti].1, pos, 1, pos.len() - 1 - offset, v1);
}

} // verus!
