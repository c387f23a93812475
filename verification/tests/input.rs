use el_terminal::input::{
    resize_cursor_name, resize_edge, shortcut, KeyPress, PaneDir, ResizeEdge, Shortcut,
};

fn ctrl_shift(c: char) -> Option<Shortcut> {
    shortcut(&KeyPress::Char(c), true, true, false)
}

#[test]
fn ctrl_shift_letters_run_window_actions() {
    assert_eq!(ctrl_shift('c'), Some(Shortcut::Copy));
    assert_eq!(ctrl_shift('C'), Some(Shortcut::Copy));
    assert_eq!(ctrl_shift('V'), Some(Shortcut::Paste));
    assert_eq!(ctrl_shift('A'), Some(Shortcut::SelectAll));
    assert_eq!(ctrl_shift('T'), Some(Shortcut::NewTab));
    assert_eq!(ctrl_shift('W'), Some(Shortcut::ClosePane));
    assert_eq!(ctrl_shift('R'), Some(Shortcut::SplitRight));
    assert_eq!(ctrl_shift('D'), Some(Shortcut::SplitDown));
    assert_eq!(ctrl_shift('Q'), Some(Shortcut::Quit));
    assert_eq!(ctrl_shift(','), Some(Shortcut::Settings));
    assert_eq!(ctrl_shift('/'), Some(Shortcut::Ask));
    assert_eq!(ctrl_shift('?'), Some(Shortcut::Ask));
    assert_eq!(ctrl_shift('x'), None);
}

#[test]
fn letters_without_both_modifiers_reach_the_terminal() {
    assert_eq!(shortcut(&KeyPress::Char('c'), true, false, false), None);
    assert_eq!(shortcut(&KeyPress::Char('c'), false, true, false), None);
    assert_eq!(shortcut(&KeyPress::Char('t'), false, false, false), None);
}

#[test]
fn ctrl_page_keys_cycle_tabs() {
    assert_eq!(shortcut(&KeyPress::PageUp, true, false, false), Some(Shortcut::PrevTab));
    assert_eq!(shortcut(&KeyPress::PageDown, true, false, false), Some(Shortcut::NextTab));
    assert_eq!(shortcut(&KeyPress::PageDown, true, true, false), None);
    assert_eq!(shortcut(&KeyPress::PageUp, true, false, true), None);
    assert_eq!(shortcut(&KeyPress::PageUp, false, false, false), None);
}

#[test]
fn alt_arrows_move_pane_focus() {
    assert_eq!(shortcut(&KeyPress::Left, false, false, true), Some(Shortcut::FocusPane(PaneDir::Left)));
    assert_eq!(shortcut(&KeyPress::Right, false, true, true), Some(Shortcut::FocusPane(PaneDir::Right)));
    assert_eq!(shortcut(&KeyPress::Up, false, false, true), Some(Shortcut::FocusPane(PaneDir::Up)));
    assert_eq!(shortcut(&KeyPress::Down, false, false, true), Some(Shortcut::FocusPane(PaneDir::Down)));
    assert_eq!(shortcut(&KeyPress::Left, true, false, true), None);
    assert_eq!(shortcut(&KeyPress::Other, false, false, true), None);
}

#[test]
fn edges_from_nearby_borders() {
    assert_eq!(resize_edge(true, false, true, false), Some(ResizeEdge::NorthWest));
    assert_eq!(resize_edge(true, false, false, true), Some(ResizeEdge::NorthEast));
    assert_eq!(resize_edge(false, true, true, false), Some(ResizeEdge::SouthWest));
    assert_eq!(resize_edge(false, true, false, true), Some(ResizeEdge::SouthEast));
    assert_eq!(resize_edge(true, false, false, false), Some(ResizeEdge::North));
    assert_eq!(resize_edge(false, true, false, false), Some(ResizeEdge::South));
    assert_eq!(resize_edge(false, false, true, false), Some(ResizeEdge::West));
    assert_eq!(resize_edge(false, false, false, true), Some(ResizeEdge::East));
    assert_eq!(resize_edge(false, false, false, false), None);
    assert_eq!(resize_edge(true, true, false, false), None);
    assert_eq!(resize_edge(false, false, true, true), None);
}

#[test]
fn cursor_names_per_edge() {
    assert_eq!(resize_cursor_name(ResizeEdge::NorthWest), "nw-resize");
    assert_eq!(resize_cursor_name(ResizeEdge::North), "n-resize");
    assert_eq!(resize_cursor_name(ResizeEdge::NorthEast), "ne-resize");
    assert_eq!(resize_cursor_name(ResizeEdge::West), "w-resize");
    assert_eq!(resize_cursor_name(ResizeEdge::East), "e-resize");
    assert_eq!(resize_cursor_name(ResizeEdge::SouthWest), "sw-resize");
    assert_eq!(resize_cursor_name(ResizeEdge::South), "s-resize");
    assert_eq!(resize_cursor_name(ResizeEdge::SouthEast), "se-resize");
}
