//! The enclosing-pair highlight around the cursor: when to look for one,
//! over which range, and what to show of the answer.
use crate::fragments::Span;
use vstd::prelude::*;

verus! {

/// How the cursor is drawn.
#[derive(Clone, Copy, Debug, PartialEq, Eq, Structural)]
pub enum CursorShape {
    Bar,
    Block,
    Underline,
    Hollow,
}

/// The newest selection, as offsets into the composite document.
#[derive(Clone, Copy, Debug, PartialEq, Eq, Structural)]
pub struct Selection {
    pub anchor: usize,
    pub head: usize,
}

/// The opening and closing token of the pair around the cursor.
#[derive(Clone, Copy, Debug, PartialEq, Eq, Structural)]
pub struct EnclosingPair {
    pub open: Span,
    pub close: Span,
}

/// What to do with the enclosing-pair highlight.
#[derive(Clone, Copy, Debug, PartialEq, Eq, Structural)]
pub enum CursorStep {
    /// Leave the highlight as it is.
    Keep,
    /// Clear the highlight and show none.
    Clear,
    /// Clear the highlight, then show the innermost pair enclosing the range.
    Query(Span),
}

/// The number of bytes that `c` takes in UTF-8.
pub open spec fn spec_utf8_len(c: char) -> int {
    if (c as u32) < 0x80 {
        1
    } else if (c as u32) < 0x800 {
        2
    } else if (c as u32) < 0x10000 {
        3
    } else {
        4
    }
}

/// The number of bytes that `c` takes in UTF-8.
pub fn utf8_len(c: char) -> (r: usize)
    ensures
        r as int == spec_utf8_len(c),
{
    let v = c as u32;
    if v < 0x80 {
        1
    } else if v < 0x800 {
        2
    } else if v < 0x10000 {
        3
    } else {
        4
    }
}

pub open spec fn covers_cell(shape: CursorShape) -> bool {
    shape == CursorShape::Block || shape == CursorShape::Hollow
}

/// The end of the range that the cursor at `head` covers: past the
/// character under it for a cursor drawn as a cell, else `head` itself.
pub open spec fn spec_tail(head: int, doc_len: int, shape: CursorShape, next: Option<char>) -> int {
    if covers_cell(shape) && head < doc_len && next is Some {
        head + spec_utf8_len(next->Some_0)
    } else {
        head
    }
}

/// What the enclosing-pair highlight becomes for a selection, when the
/// cursor may have moved: nothing for a non-empty selection or a head past
/// the document's end, else the pair around the cursor's range.
pub open spec fn spec_selection_step(
    sel: Selection,
    doc_len: int,
    shape: CursorShape,
    next: Option<char>,
) -> CursorStep {
    if sel.anchor != sel.head || sel.head > doc_len {
        CursorStep::Clear
    } else {
        CursorStep::Query(
            Span {
                start: sel.head,
                end: spec_tail(sel.head as int, doc_len, shape, next) as usize,
            },
        )
    }
}

/// A character that starts at `head` ends inside the document.
pub open spec fn next_char_fits(head: int, doc_len: int, next: Option<char>) -> bool {
    next matches Some(c) ==> head + spec_utf8_len(c) <= doc_len
}

/// Decides the enclosing-pair step for a selection: `next` is the
/// character that starts at the selection's head, if any.
pub fn selection_step(sel: Selection, doc_len: usize, shape: CursorShape, next: Option<char>) -> (r:
    CursorStep)
    requires
        sel.head < doc_len ==> next_char_fits(sel.head as int, doc_len as int, next),
    ensures
        r == spec_selection_step(sel, doc_len as int, shape, next),
{
    if sel.anchor != sel.head {
        return CursorStep::Clear;
    }
    let head = sel.head;
    if head > doc_len {
        return CursorStep::Clear;
    }
    let mut tail = head;
    if (shape == CursorShape::Block || shape == CursorShape::Hollow) && head < doc_len {
        if let Some(c) = next {
            tail = tail + utf8_len(c);
        }
    }
    CursorStep::Query(Span { start: head, end: tail })
}

/// The enclosing-pair highlight after a step, given the previous one and
/// the innermost enclosing pair that was found for a query.
pub open spec fn enclosing_after(
    step: CursorStep,
    prev: Option<EnclosingPair>,
    found: Option<EnclosingPair>,
) -> Option<EnclosingPair> {
    match step {
        CursorStep::Keep => prev,
        CursorStep::Clear => None,
        CursorStep::Query(_) => found,
    }
}

} // verus!
