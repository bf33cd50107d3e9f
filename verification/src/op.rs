//! Drawing operations: what a redraw hands to the screen.

use crate::style::{Attr, Color, Style};
use vstd::prelude::*;

verus! {

/// One step of drawing a pane.
#[derive(Clone, Debug, PartialEq, Eq)]
pub enum Op {
    /// Replace the whole style.
    SetStyle(Style),
    /// Set one attribute.
    Attr(Attr),
    /// Show reverse video as given, where a highlight begins or ends.
    Highlight(bool),
    /// Write text at the cursor.
    Text(String),
    /// Go to the start of the next row.
    NextRow,
    /// Clear the pane to a background color.
    Clear(Color),
    /// Put the cursor at a column and row of the pane.
    MoveTo { x: usize, y: usize },
}

/// An [`Op`] with its text as a sequence of characters.
pub enum OpModel {
    SetStyle(Style),
    Attr(Attr),
    Highlight(bool),
    Text(Seq<char>),
    NextRow,
    Clear(Color),
    MoveTo { x: usize, y: usize },
}

impl View for Op {
    type V = OpModel;

    open spec fn view(&self) -> OpModel {
        match *self {
            Op::SetStyle(style) => OpModel::SetStyle(style),
            Op::Attr(attr) => OpModel::Attr(attr),
            Op::Highlight(on) => OpModel::Highlight(on),
            Op::Text(text) => OpModel::Text(text@),
            Op::NextRow => OpModel::NextRow,
            Op::Clear(color) => OpModel::Clear(color),
            Op::MoveTo { x, y } => OpModel::MoveTo { x, y },
        }
    }
}

/// The models of a sequence of operations.
pub open spec fn ops_view(ops: Seq<Op>) -> Seq<OpModel> {
    ops.map_values(|op: Op| op@)
}

/// Adds an operation to a list.
pub fn emit(ops: &mut Vec<Op>, op: Op)
    ensures
        ops_view(final(ops)@) == ops_view(old(ops)@).push(op@),
{
    ops.push(op);
    assert(ops_view(ops@) =~= ops_view(old(ops)@).push(op@));
}

} // verus!
