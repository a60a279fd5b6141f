//! Laws of the navigator's edit handler, stated over the transition
//! relation: toggling a boolean, and the begin/keep/restore life cycle of
//! a text edit.

use vstd::prelude::*;

use crate::state::{
    input_view, lemma_tabs_replaced_sel, next_level_rel, sel_value_spec, transition_rel,
    value_event_spec, EventOut, State,
};
use crate::textbuf::TextBuf;
use crate::tree::Branches;
use crate::value::{text_check, Value, ValueVariant};
use crate::Event;

verus! {

/// Law: `Enter` on a boolean cell flips exactly that cell; the
/// navigation stack and the edit mode are unchanged.
pub proof fn lemma_toggle_bool(
    s0: State,
    t0: Branches,
    s1: State,
    t1: Branches,
    v0: Value,
    b: bool,
)
    requires
        s0.input is None,
        transition_rel(s0, t0, s1, t1, Event::Enter),
        sel_value_spec(t0, s0.position@, 0) == Some(v0),
        v0.var == ValueVariant::Bool(b),
    ensures
        s1.position@ == s0.position@,
        s1.input is None,
        sel_value_spec(t1, s1.position@, 0) matches Some(v1x) && v1x.var == ValueVariant::Bool(!b)
            && v1x.ty == v0.ty,
{
    let pos = s0.position@;
    let (v1, out): (Value, EventOut) = choose|v1: Value, out: EventOut|
        {
            &&& #[trigger] value_event_spec(v0, v1, Event::Enter, input_view(s0.input), out)
            &&& crate::value::value_wf(v1)
            &&& crate::state::tabs_replaced(t0, t1, pos, pos.len() - 1, v1)
            &&& crate::state::input_after(s0.input, out.effect, s1.input)
            &&& if out.consumed {
                s1.position@ == pos
            } else {
                next_level_rel(pos, s1.position@, t1, false)
            }
        };
    lemma_tabs_replaced_sel(t0, t1, pos, 0, v1);
}

/// Law: `Enter` on a text cell begins an edit: the snapshot taken is the
/// cell's current text, the text itself is unchanged, and the stack does
/// not move.
pub proof fn lemma_enter_begins_edit(
    s0: State,
    t0: Branches,
    s1: State,
    t1: Branches,
    v0: Value,
    tb: TextBuf,
)
    requires
        s0.input is None,
        transition_rel(s0, t0, s1, t1, Event::Enter),
        sel_value_spec(t0, s0.position@, 0) == Some(v0),
        v0.var == ValueVariant::Text(tb),
    ensures
        s1.position@ == s0.position@,
        input_view(s1.input) == Some(tb.text()),
        sel_value_spec(t1, s1.position@, 0) matches Some(v1x) && (v1x.var
            matches ValueVariant::Text(tb1) && tb1.text() == tb.text() && v1x.ty == v0.ty),
{
    let pos = s0.position@;
    let (v1, out): (Value, EventOut) = choose|v1: Value, out: EventOut|
        {
            &&& #[trigger] value_event_spec(v0, v1, Event::Enter, input_view(s0.input), out)
            &&& crate::value::value_wf(v1)
            &&& crate::state::tabs_replaced(t0, t1, pos, pos.len() - 1, v1)
            &&& crate::state::input_after(s0.input, out.effect, s1.input)
            &&& if out.consumed {
                s1.position@ == pos
            } else {
                next_level_rel(pos, s1.position@, t1, false)
            }
        };
    lemma_tabs_replaced_sel(t0, t1, pos, 0, v1);
    // the descent that follows cannot enter a text cell, so the stack
    // stays put
    assert(next_level_rel(pos, s1.position@, t1, false));
    match crate::state::container_spec(t1, pos, 0) {
        Some(c1) => match c1 {
            crate::branch::Branch::Args(a1) => match pos.last() {
                crate::state::Node::Args(name, col) => {
                    assert(crate::args::cell_by_cindex(a1, name@, col as int) == Some(v1));
                    assert(crate::state::nl_args_child(a1, pos.last(), false) is None);
                },
                _ => {},
            },
            _ => {},
        },
        None => {},
    }
}

/// Law: while a text edit is in progress, any event other than `Cancel`
/// or a committing `Enter` keeps the snapshot and the stack, and the
/// cell stays a text cell of the same type.
pub proof fn lemma_editing_keeps_snapshot(
    s0: State,
    t0: Branches,
    s1: State,
    t1: Branches,
    ev: Event,
    v0: Value,
    tb: TextBuf,
)
    requires
        s0.input is Some,
        !(ev is Cancel),
        !(ev is Enter) || !text_check(v0.ty, tb.text()),
        transition_rel(s0, t0, s1, t1, ev),
        sel_value_spec(t0, s0.position@, 0) == Some(v0),
        v0.var == ValueVariant::Text(tb),
    ensures
        s1.input == s0.input,
        s1.position@ == s0.position@,
        sel_value_spec(t1, s1.position@, 0) matches Some(v1x) && v1x.ty == v0.ty && v1x.var
            is Text,
{
    let pos = s0.position@;
    let (v1, out): (Value, EventOut) = choose|v1: Value, out: EventOut|
        {
            &&& #[trigger] value_event_spec(v0, v1, ev, input_view(s0.input), out)
            &&& crate::value::value_wf(v1)
            &&& crate::state::tabs_replaced(t0, t1, pos, pos.len() - 1, v1)
            &&& crate::state::input_after(s0.input, out.effect, s1.input)
        };
    lemma_tabs_replaced_sel(t0, t1, pos, 0, v1);
}

/// Law: `Cancel` during a text edit restores the buffer to the snapshot,
/// character for character, and clears the edit mode; the stack does not
/// move. Together with `lemma_enter_begins_edit` (the snapshot is the
/// pre-edit text) and `lemma_editing_keeps_snapshot` (edits never change
/// the snapshot), entering an edit and canceling it restores the
/// pre-edit content exactly.
pub proof fn lemma_cancel_restores(
    s0: State,
    t0: Branches,
    s1: State,
    t1: Branches,
    v0: Value,
    tb: TextBuf,
    snap: Vec<char>,
)
    requires
        s0.input == Some(snap),
        transition_rel(s0, t0, s1, t1, Event::Cancel),
        sel_value_spec(t0, s0.position@, 0) == Some(v0),
        v0.var == ValueVariant::Text(tb),
    ensures
        s1.input is None,
        s1.position@ == s0.position@,
        sel_value_spec(t1, s1.position@, 0) matches Some(v1x) && (v1x.var
            matches ValueVariant::Text(tb1) && tb1.text() == snap@ && v1x.ty == v0.ty),
{
    let pos = s0.position@;
    let (v1, out): (Value, EventOut) = choose|v1: Value, out: EventOut|
        {
            &&& #[trigger] value_event_spec(v0, v1, Event::Cancel, input_view(s0.input), out)
            &&& crate::value::value_wf(v1)
            &&& crate::state::tabs_replaced(t0, t1, pos, pos.len() - 1, v1)
            &&& crate::state::input_after(s0.input, out.effect, s1.input)
        };
    lemma_tabs_replaced_sel(t0, t1, pos, 0, v1);
}

} // verus!

verus! {

/// Law: `Enter` during a text edit commits exactly when the buffer
/// parses as the declared type: then the text is kept as it stands and
/// the edit mode ends. (When it does not parse,
/// `lemma_editing_keeps_snapshot` applies: the edit stays open.)
pub proof fn lemma_commit_requires_valid(
    s0: State,
    t0: Branches,
    s1: State,
    t1: Branches,
    v0: Value,
    tb: TextBuf,
)
    requires
        s0.input is Some,
        transition_rel(s0, t0, s1, t1, Event::Enter),
        sel_value_spec(t0, s0.position@, 0) == Some(v0),
        v0.var == ValueVariant::Text(tb),
        text_check(v0.ty, tb.text()),
    ensures
        s1.input is None,
        s1.position@ == s0.position@,
        sel_value_spec(t1, s1.position@, 0) matches Some(v1x) && (v1x.var
            matches ValueVariant::Text(tb1) && tb1.text() == tb.text() && v1x.ty == v0.ty),
{
    let pos = s0.position@;
    let (v1, out): (Value, EventOut) = choose|v1: Value, out: EventOut|
        {
            &&& #[trigger] value_event_spec(v0, v1, Event::Enter, input_view(s0.input), out)
            &&& crate::value::value_wf(v1)
            &&& crate::state::tabs_replaced(t0, t1, pos, pos.len() - 1, v1)
            &&& crate::state::input_after(s0.input, out.effect, s1.input)
        };
    lemma_tabs_replaced_sel(t0, t1, pos, 0, v1);
}

} // verus!
