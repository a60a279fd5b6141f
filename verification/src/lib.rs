//! An editable form tree: a navigable hierarchy of named groups, typed-field
//! grids and variable-length collections, walked and mutated by a
//! cursor-stack navigator that consumes discrete input events.

use vstd::prelude::*;

mod args;
mod array;
mod branch;
mod labels;
pub mod laws;
mod numcheck;
mod state;
mod strconv;
mod tab;
mod textbuf;
mod tree;
mod value;

pub use args::{Args, Cell};
pub use array::Array;
pub use branch::Branch;
pub use state::{Node, State};
pub use tab::Tab;
pub use textbuf::TextBuf;
pub use tree::{Branches, Tree};
pub use value::{NumberType, StringType, Type, Value, ValueVariant};

verus! {

/// The abstract input events the navigator consumes.
pub enum Event {
    NextTab,
    PreviousTab,
    NextItem,
    PreviousItem,
    NextLevel,
    PreviousLevel,
    Enter,
    Cancel,
    Backspace,
    Delete,
    Char(char),
}

/// The whole editor: a title, the ordered set of top-level tabs, and the
/// navigator state.
pub struct TreeEdit {
    pub title: String,
    pub tabs: Branches,
    pub state: State,
}

impl TreeEdit {
    /// The editor's invariant: the tab set is well formed.
    pub open spec fn wf(&self) -> bool {
        crate::tree::branches_wf(self.tabs)
    }

    pub fn new(title: &str) -> (r: TreeEdit)
        ensures
            r.wf(),
            r.title@ == title@,
            r.tabs.entries@.len() == 0,
            r.state.position@.len() == 0,
            r.state.input is None,
    {
        TreeEdit { title: title.to_owned(), tabs: Branches::new(), state: State::new() }
    }

    /// Builder: add a tab. When no tab was selected yet, the navigator is
    /// seeded onto a tab as by a `PreviousTab` event.
    pub fn tab(self, tab_name: String, tab: Branch) -> (r: TreeEdit)
        requires
            self.wf(),
            crate::branch::branch_wf(tab),
        ensures
            r.wf(),
            r.title == self.title,
            self.state.input is None ==> ({
                let i = self.tabs.key_find(tab_name@);
                &&& if i >= 0 {
                    r.tabs.entries@ == self.tabs.entries@.update(
                        i,
                        (self.tabs.entries@[i].0, tab),
                    )
                } else {
                    r.tabs.entries@ == self.tabs.entries@.push((tab_name, tab))
                }
                &&& r.state.input == self.state.input
                &&& if state::tab_index_spec(r.tabs, self.state.position@) >= 0 {
                    r.state == self.state
                } else {
                    state::tab_rel(self.state.position@, r.state.position@, r.tabs, false)
                }
            }),
    {
        let mut edit = self;
        proof {
            crate::labels::lemma_find_idx(edit.tabs.keys(), tab_name@);
        }
        edit.tabs.insert(tab_name, tab);
        proof {
            assert(edit.wf()) by {
                assert(forall|j: int|
                    0 <= j < edit.tabs.entries@.len() ==> crate::branch::branch_wf(
                        (#[trigger] edit.tabs.entries@[j]).1,
                    ));
                if self.tabs.key_find(tab_name@) >= 0 {
                    assert(edit.tabs.keys() =~= self.tabs.keys());
                } else {
                    assert(edit.tabs.keys() =~= self.tabs.keys().push(tab_name@));
                    assert(forall|j: int|
                        0 <= j < self.tabs.keys().len() ==> self.tabs.keys()[j] != tab_name@);
                    assert(forall|i: int, j: int|
                        0 <= i < j < edit.tabs.entries@.len() ==> edit.tabs.keys()[i]
                            != edit.tabs.keys()[j]);
                }
            }
        }
        let seeded = edit.state.index_tab(&edit.tabs).is_some();
        if !seeded {
            edit.state.transition(Event::PreviousTab, &mut edit.tabs);
        }
        edit
    }

    /// The ordered tab set.
    pub fn get_tabs(&self) -> (r: &Branches)
        ensures
            *r == self.tabs,
    {
        &self.tabs
    }

    /// The selected tab's position among the tabs, if the stack's root
    /// frame names one.
    pub fn get_index_tab(&self) -> (r: Option<usize>)
        ensures
            match r {
                Some(i) => i == state::tab_index_spec(self.tabs, self.state.position@),
                None => state::tab_index_spec(self.tabs, self.state.position@) == -1,
            },
    {
        self.state.index_tab(&self.tabs)
    }

    /// The selected tab's name and branch, falling back to the first tab
    /// when none is selected.
    pub fn get_current_tab(&self) -> (r: Option<(&String, &Branch)>)
        ensures
            ({
                let i = state::tab_index_spec(self.tabs, self.state.position@);
                let k: int = if i < 0 {
                    0
                } else {
                    i
                };
                match r {
                    Some(p) => k < self.tabs.entries@.len() && *p.0 == self.tabs.entries@[k].0
                        && *p.1 == self.tabs.entries@[k].1,
                    None => k >= self.tabs.entries@.len(),
                }
            }),
    {
        proof {
            if self.state.position@.len() > 0 && self.state.position@[0] is Tree {
                crate::labels::lemma_find_idx(
                    self.tabs.keys(),
                    state::node_label(self.state.position@[0]),
                );
            }
        }
        let k: usize = match self.state.index_tab(&self.tabs) {
            Some(i) => i,
            None => 0,
        };
        if k < self.tabs.len() {
            Some((self.tabs.key_at(k), self.tabs.branch_at(k)))
        } else {
            None
        }
    }

    /// Consume one input event.
    pub fn transition(&mut self, event: Event)
        requires
            old(self).wf(),
        ensures
            final(self).wf(),
            final(self).title == old(self).title,
            state::transition_rel(
                old(self).state,
                old(self).tabs,
                final(self).state,
                final(self).tabs,
                event,
            ),
    {
        self.state.transition(event, &mut self.tabs);
    }

    /// The navigation stack, root tab first.
    pub fn position(&self) -> (r: &Vec<Node>)
        ensures
            *r == self.state.position,
    {
        &self.state.position
    }

    /// Whether a text edit is in progress.
    pub fn in_input_mode(&self) -> (r: bool)
        ensures
            r == (self.state.input is Some),
    {
        self.state.input.is_some()
    }
}

} // verus!
