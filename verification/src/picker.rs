//! The interactive note picker: which note is highlighted, which rows are
//! shown, and what each key does. Drawing and reading keys are left to
//! the caller.

use vstd::prelude::*;
use crate::tui::Key;

verus! {

/// How picking among `len` notes begins.
#[derive(Debug, Clone, Copy, PartialEq, Eq, Structural)]
pub enum PickStart {
    /// There is nothing to pick.
    Nothing,
    /// The only note is picked at once.
    Only,
    /// The user chooses, starting at the given (the latest) note.
    Choose(usize),
}

/// How picking begins: nothing among no notes, the only one among one,
/// else a choice starting at the last.
pub fn pick_start(len: usize) -> (r: PickStart)
    ensures
        r == if len == 0 {
            PickStart::Nothing
        } else if len == 1 {
            PickStart::Only
        } else {
            PickStart::Choose((len - 1) as usize)
        },
{
    if len == 0 {
        PickStart::Nothing
    } else if len == 1 {
        PickStart::Only
    } else {
        PickStart::Choose(len - 1)
    }
}

/// What a key does in the picker.
#[derive(Debug, Clone, Copy, PartialEq, Eq, Structural)]
pub enum PickStep {
    /// The highlight is now on the given note; redraw where it moved.
    Move(usize, bool),
    /// The given note is picked.
    Picked(usize),
    /// Picking is cancelled.
    Cancelled,
}

/// What a key does with note `sel` of `len` highlighted: up and down move
/// the highlight within the list, enter picks, escape or `q` cancel, any
/// other key does nothing.
pub open spec fn pick_key(sel: usize, len: usize, key: Key) -> PickStep {
    match key {
        Key::Up => if sel > 0 {
            PickStep::Move((sel - 1) as usize, true)
        } else {
            PickStep::Move(sel, false)
        },
        Key::Down => if sel + 1 < len {
            PickStep::Move((sel + 1) as usize, true)
        } else {
            PickStep::Move(sel, false)
        },
        Key::Enter => PickStep::Picked(sel),
        Key::Esc | Key::Char('q') => PickStep::Cancelled,
        _ => PickStep::Move(sel, false),
    }
}

/// Applies a key to the picker.
pub fn pick_step(sel: usize, len: usize, key: Key) -> (r: PickStep)
    requires
        sel < len,
    ensures
        r == pick_key(sel, len, key),
{
    match key {
        Key::Up => if sel > 0 {
            PickStep::Move(sel - 1, true)
        } else {
            PickStep::Move(sel, false)
        },
        Key::Down => if sel < len - 1 {
            PickStep::Move(sel + 1, true)
        } else {
            PickStep::Move(sel, false)
        },
        Key::Enter => PickStep::Picked(sel),
        Key::Esc | Key::Char('q') => PickStep::Cancelled,
        _ => PickStep::Move(sel, false),
    }
}

/// The rows shown with note `sel` of `len` highlighted: from five above it
/// (or the first), eight at most.
pub open spec fn window_of(sel: usize, len: usize) -> (usize, usize) {
    let start = if sel > 5 {
        (sel - 5) as usize
    } else {
        0usize
    };
    let end = if start + 8 < len {
        (start + 8) as usize
    } else {
        len
    };
    (start, end)
}

/// The first and one past the last row shown.
pub fn pick_window(sel: usize, len: usize) -> (r: (usize, usize))
    requires
        sel < len,
    ensures
        r == window_of(sel, len),
        r.0 <= sel < r.1 <= len,
{
    let start = if sel > 5 {
        sel - 5
    } else {
        0
    };
    let end = if start < len && len - start > 8 {
        start + 8
    } else {
        len
    };
    (start, end)
}

/// Moving the highlight keeps it on a note.
pub proof fn law_highlight_stays_in_list(sel: usize, len: usize, key: Key)
    requires
        sel < len,
    ensures
        pick_key(sel, len, key) matches PickStep::Move(s, _) ==> s < len,
        pick_key(sel, len, key) matches PickStep::Picked(s) ==> s == sel,
{
}

/// Up moves the highlight one note back and down one note on, where there
/// is one; enter picks the highlighted note; escape and `q` cancel.
pub proof fn law_picker_keys(sel: usize, len: usize)
    requires
        sel < len,
    ensures
        sel > 0 ==> pick_key(sel, len, Key::Up) == PickStep::Move((sel - 1) as usize, true),
        sel == 0 ==> pick_key(sel, len, Key::Up) == PickStep::Move(sel, false),
        sel + 1 < len ==> pick_key(sel, len, Key::Down) == PickStep::Move((sel + 1) as usize, true),
        sel + 1 == len ==> pick_key(sel, len, Key::Down) == PickStep::Move(sel, false),
        pick_key(sel, len, Key::Enter) == PickStep::Picked(sel),
        pick_key(sel, len, Key::Esc) == PickStep::Cancelled,
        pick_key(sel, len, Key::Char('q')) == PickStep::Cancelled,
{
}

} // verus!
