// The interactive listing's decisions: which panel has the focus, which line
// of each panel is selected, and how a key press changes them.
use vstd::prelude::*;

verus! {

/// The two panels: globals on the left, code on the right.
#[derive(Debug, Clone, Copy, PartialEq, Eq, Structural)]
pub enum Panel {
    Left,
    Right,
}

/// A key press, as the viewer tells them apart.
#[derive(Debug, Clone, Copy, PartialEq, Eq, Structural)]
pub enum Key {
    Quit,
    Up,
    Down,
    PageUp,
    PageDown,
    FocusLeft,
    FocusRight,
    Other,
}

/// The focused panel, the number of lines of each panel, and the selected
/// line of each.
#[derive(Debug, Clone, Copy, PartialEq, Eq, Structural)]
pub struct ViewerState {
    pub focus: Panel,
    pub left_len: usize,
    pub right_len: usize,
    pub left_selected: usize,
    pub right_selected: usize,
}

/// Each selection names a line of its panel, or the first line of an empty
/// one.
pub open spec fn selections_ok(s: ViewerState) -> bool {
    &&& (s.left_selected < s.left_len || s.left_selected == 0)
    &&& (s.right_selected < s.right_len || s.right_selected == 0)
}

pub open spec fn sat_sub(a: int, b: int) -> int {
    if a >= b { a - b } else { 0 }
}

/// The selection of a panel of `len` lines after a move.
pub open spec fn moved(sel: int, len: int, key: Key, page: int) -> int {
    match key {
        Key::Up => sat_sub(sel, 1),
        Key::Down => if sel + 1 < len { sel + 1 } else { sel },
        Key::PageUp => sat_sub(sel, page),
        Key::PageDown => if sel + page < sat_sub(len, 1) { sel + page } else { sat_sub(len, 1) },
        _ => sel,
    }
}

/// The state after a key press, and whether the viewer closes.
pub open spec fn step_spec(s: ViewerState, key: Key, page: int) -> (ViewerState, bool) {
    match key {
        Key::Quit => (s, true),
        Key::FocusLeft => (ViewerState { focus: Panel::Left, ..s }, false),
        Key::FocusRight => (ViewerState { focus: Panel::Right, ..s }, false),
        Key::Other => (s, false),
        _ => match s.focus {
            Panel::Left => (ViewerState { left_selected: moved(s.left_selected as int, s.left_len as int, key, page) as usize, ..s }, false),
            Panel::Right => (ViewerState { right_selected: moved(s.right_selected as int, s.right_len as int, key, page) as usize, ..s }, false),
        },
    }
}

impl ViewerState {
    /// The first line of each panel selected, the code in focus.
    pub fn new(left_len: usize, right_len: usize) -> (r: Self)
        ensures
            r == (ViewerState { focus: Panel::Right, left_len, right_len, left_selected: 0, right_selected: 0 }),
            selections_ok(r),
    {
        ViewerState { focus: Panel::Right, left_len, right_len, left_selected: 0, right_selected: 0 }
    }
}

fn move_selection(sel: usize, len: usize, key: Key, page: usize) -> (r: usize)
    ensures
        r as int == moved(sel as int, len as int, key, page as int),
{
    match key {
        Key::Up => sel.saturating_sub(1),
        Key::Down => if sel < len && sel + 1 < len { sel + 1 } else { sel },
        Key::PageUp => sel.saturating_sub(page),
        Key::PageDown => {
            let last = len.saturating_sub(1);
            if sel < last && page < last - sel { sel + page } else { last }
        },
        _ => sel,
    }
}

/// Apply a key press: quit, switch the focus, or move the focused panel's
/// selection by a line or by `page` lines, staying inside the panel.
pub fn step(s: ViewerState, key: Key, page: usize) -> (r: (ViewerState, bool))
    ensures
        r == step_spec(s, key, page as int),
        selections_ok(s) ==> selections_ok(r.0),
{
    match key {
        Key::Quit => (s, true),
        Key::FocusLeft => (ViewerState { focus: Panel::Left, ..s }, false),
        Key::FocusRight => (ViewerState { focus: Panel::Right, ..s }, false),
        Key::Other => (s, false),
        _ => match s.focus {
            Panel::Left => (ViewerState { left_selected: move_selection(s.left_selected, s.left_len, key, page), ..s }, false),
            Panel::Right => (ViewerState { right_selected: move_selection(s.right_selected, s.right_len, key, page), ..s }, false),
        },
    }
}

} // verus!
