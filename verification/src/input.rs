//! Window input decisions: which key press is a window shortcut, and which
//! window edge a pointer near the border resizes.

use vstd::prelude::*;

verus! {

/// A key press as the shortcut table reads it. The keypad's Page Up/Down and
/// arrow keys count as the main ones; other keys carry their character.
#[derive(PartialEq, Eq, Structural)]
pub enum KeyPress {
    PageUp,
    PageDown,
    Left,
    Right,
    Up,
    Down,
    Char(char),
    Other,
}

/// A direction to move pane focus in.
#[derive(PartialEq, Eq, Structural, Clone, Copy, Debug)]
pub enum PaneDir {
    Left,
    Right,
    Up,
    Down,
}

/// A window action a shortcut triggers.
#[derive(PartialEq, Eq, Structural, Clone, Copy, Debug)]
pub enum Shortcut {
    PrevTab,
    NextTab,
    FocusPane(PaneDir),
    Copy,
    Paste,
    SelectAll,
    NewTab,
    ClosePane,
    SplitRight,
    SplitDown,
    Quit,
    Settings,
    Ask,
}

/// The action bound to `c` under Ctrl+Shift.
pub open spec fn ctrl_shift_action(c: char) -> Option<Shortcut> {
    if c == 'c' || c == 'C' {
        Some(Shortcut::Copy)
    } else if c == 'v' || c == 'V' {
        Some(Shortcut::Paste)
    } else if c == 'a' || c == 'A' {
        Some(Shortcut::SelectAll)
    } else if c == 't' || c == 'T' {
        Some(Shortcut::NewTab)
    } else if c == 'w' || c == 'W' {
        Some(Shortcut::ClosePane)
    } else if c == 'r' || c == 'R' {
        Some(Shortcut::SplitRight)
    } else if c == 'd' || c == 'D' {
        Some(Shortcut::SplitDown)
    } else if c == 'q' || c == 'Q' {
        Some(Shortcut::Quit)
    } else if c == ',' {
        Some(Shortcut::Settings)
    } else if c == '/' || c == '?' {
        Some(Shortcut::Ask)
    } else {
        None
    }
}

/// The shortcut a key press with the given modifiers triggers, if any:
/// Ctrl+Page Up/Down cycles tabs, Alt+arrow moves pane focus, and Ctrl+Shift
/// with a letter or sign runs the matching window action.
pub open spec fn shortcut_of(key: KeyPress, ctrl: bool, shift: bool, alt: bool) -> Option<Shortcut> {
    if ctrl && !shift && !alt && key == KeyPress::PageUp {
        Some(Shortcut::PrevTab)
    } else if ctrl && !shift && !alt && key == KeyPress::PageDown {
        Some(Shortcut::NextTab)
    } else if alt && !ctrl && key == KeyPress::Left {
        Some(Shortcut::FocusPane(PaneDir::Left))
    } else if alt && !ctrl && key == KeyPress::Right {
        Some(Shortcut::FocusPane(PaneDir::Right))
    } else if alt && !ctrl && key == KeyPress::Up {
        Some(Shortcut::FocusPane(PaneDir::Up))
    } else if alt && !ctrl && key == KeyPress::Down {
        Some(Shortcut::FocusPane(PaneDir::Down))
    } else if ctrl && shift {
        match key {
            KeyPress::Char(c) => ctrl_shift_action(c),
            _ => None,
        }
    } else {
        None
    }
}

fn ctrl_shift_lookup(c: char) -> (r: Option<Shortcut>)
    ensures
        r == ctrl_shift_action(c),
{
    if c == 'c' || c == 'C' {
        Some(Shortcut::Copy)
    } else if c == 'v' || c == 'V' {
        Some(Shortcut::Paste)
    } else if c == 'a' || c == 'A' {
        Some(Shortcut::SelectAll)
    } else if c == 't' || c == 'T' {
        Some(Shortcut::NewTab)
    } else if c == 'w' || c == 'W' {
        Some(Shortcut::ClosePane)
    } else if c == 'r' || c == 'R' {
        Some(Shortcut::SplitRight)
    } else if c == 'd' || c == 'D' {
        Some(Shortcut::SplitDown)
    } else if c == 'q' || c == 'Q' {
        Some(Shortcut::Quit)
    } else if c == ',' {
        Some(Shortcut::Settings)
    } else if c == '/' || c == '?' {
        Some(Shortcut::Ask)
    } else {
        None
    }
}

/// The window shortcut for a key press (see `shortcut_of`); `None` lets the
/// key through to the terminal.
pub fn shortcut(key: &KeyPress, ctrl: bool, shift: bool, alt: bool) -> (r: Option<Shortcut>)
    ensures
        r == shortcut_of(*key, ctrl, shift, alt),
{
    if ctrl && !shift && !alt {
        match key {
            KeyPress::PageUp => return Some(Shortcut::PrevTab),
            KeyPress::PageDown => return Some(Shortcut::NextTab),
            _ => {},
        }
    }
    if alt && !ctrl {
        match key {
            KeyPress::Left => return Some(Shortcut::FocusPane(PaneDir::Left)),
            KeyPress::Right => return Some(Shortcut::FocusPane(PaneDir::Right)),
            KeyPress::Up => return Some(Shortcut::FocusPane(PaneDir::Up)),
            KeyPress::Down => return Some(Shortcut::FocusPane(PaneDir::Down)),
            _ => {},
        }
    }
    if !(ctrl && shift) {
        return None;
    }
    match key {
        KeyPress::Char(c) => ctrl_shift_lookup(*c),
        _ => None,
    }
}

/// A window edge or corner to resize from.
#[derive(PartialEq, Eq, Structural, Clone, Copy, Debug)]
pub enum ResizeEdge {
    NorthWest,
    North,
    NorthEast,
    West,
    East,
    SouthWest,
    South,
    SouthEast,
}

/// The edge a pointer resizes from, given which borders it is near. Near two
/// opposite borders at once, or none, it resizes nothing.
pub open spec fn edge_of(top: bool, bottom: bool, left: bool, right: bool) -> Option<ResizeEdge> {
    if top && !bottom && left && !right {
        Some(ResizeEdge::NorthWest)
    } else if top && !bottom && !left && right {
        Some(ResizeEdge::NorthEast)
    } else if !top && bottom && left && !right {
        Some(ResizeEdge::SouthWest)
    } else if !top && bottom && !left && right {
        Some(ResizeEdge::SouthEast)
    } else if top && !bottom && !left && !right {
        Some(ResizeEdge::North)
    } else if !top && bottom && !left && !right {
        Some(ResizeEdge::South)
    } else if !top && !bottom && left && !right {
        Some(ResizeEdge::West)
    } else if !top && !bottom && !left && right {
        Some(ResizeEdge::East)
    } else {
        None
    }
}

/// See `edge_of`.
pub fn resize_edge(top: bool, bottom: bool, left: bool, right: bool) -> (r: Option<ResizeEdge>)
    ensures
        r == edge_of(top, bottom, left, right),
{
    match (top, bottom, left, right) {
        (true, false, true, false) => Some(ResizeEdge::NorthWest),
        (true, false, false, true) => Some(ResizeEdge::NorthEast),
        (false, true, true, false) => Some(ResizeEdge::SouthWest),
        (false, true, false, true) => Some(ResizeEdge::SouthEast),
        (true, false, false, false) => Some(ResizeEdge::North),
        (false, true, false, false) => Some(ResizeEdge::South),
        (false, false, true, false) => Some(ResizeEdge::West),
        (false, false, false, true) => Some(ResizeEdge::East),
        _ => None,
    }
}

/// The cursor name shown over a resize edge.
pub fn resize_cursor_name(edge: ResizeEdge) -> (r: &'static str)
    ensures
        r@ == (match edge {
            ResizeEdge::NorthWest => "nw-resize"@,
            ResizeEdge::North => "n-resize"@,
            ResizeEdge::NorthEast => "ne-resize"@,
            ResizeEdge::West => "w-resize"@,
            ResizeEdge::East => "e-resize"@,
            ResizeEdge::SouthWest => "sw-resize"@,
            ResizeEdge::South => "s-resize"@,
            ResizeEdge::SouthEast => "se-resize"@,
        }),
{
    match edge {
        ResizeEdge::NorthWest => "nw-resize",
        ResizeEdge::North => "n-resize",
        ResizeEdge::NorthEast => "ne-resize",
        ResizeEdge::West => "w-resize",
        ResizeEdge::East => "e-resize",
        ResizeEdge::SouthWest => "sw-resize",
        ResizeEdge::South => "s-resize",
        ResizeEdge::SouthEast => "se-resize",
    }
}

} // verus!
