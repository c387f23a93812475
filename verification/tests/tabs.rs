use el_terminal::tabs::{accent_class, PaneClose, TabClose, TabModel};

fn model_with(n: usize) -> TabModel {
    let mut m = TabModel::new();
    for _ in 0..n {
        m.add_tab();
    }
    m
}

#[test]
fn new_tabs_get_fresh_names_and_panes() {
    let mut m = TabModel::new();
    let a = m.add_tab();
    assert_eq!(a.name, "tab-0");
    assert_eq!(a.pane_id, 1);
    assert_eq!(a.accent, "green");
    let b = m.add_tab();
    assert_eq!(b.name, "tab-2");
    assert_eq!(b.pane_id, 3);
    assert_eq!(b.accent, "purple");
    assert_eq!(m.tabs.len(), 2);
    assert_eq!(m.active, 1);
    assert_eq!(m.next_id, 4);
    assert_eq!(m.active_pane(), Some(3));
}

#[test]
fn accents_cycle() {
    assert_eq!(accent_class(0), "green");
    assert_eq!(accent_class(1), "blue");
    assert_eq!(accent_class(2), "purple");
    assert_eq!(accent_class(3), "green");
}

#[test]
fn cycling_wraps_and_comes_back() {
    let mut m = model_with(3);
    assert_eq!(m.active, 2);
    assert_eq!(m.cycle_tab(1), Some(0));
    assert_eq!(m.cycle_tab(-1), Some(2));
    assert_eq!(m.cycle_tab(-1), Some(1));
    assert_eq!(m.cycle_tab(1), Some(2));
}

#[test]
fn cycling_one_tab_does_nothing() {
    let mut m = model_with(1);
    assert_eq!(m.cycle_tab(1), None);
    assert_eq!(m.active, 0);
}

#[test]
fn select_by_name() {
    let mut m = model_with(3);
    assert_eq!(m.select_tab_by_name("tab-0"), Some(0));
    assert_eq!(m.active, 0);
    assert_eq!(m.select_tab_by_name("tab-9"), None);
    assert_eq!(m.active, 0);
}

#[test]
fn closing_the_last_tab_resets_it() {
    let mut m = model_with(1);
    assert!(matches!(m.close_tab("tab-0"), TabClose::ResetLast));
    assert_eq!(m.tabs.len(), 1);
    assert!(matches!(m.close_tab("nope"), TabClose::NotFound));
}

#[test]
fn closing_a_tab_selects_its_neighbour() {
    let mut m = model_with(3);
    match m.close_tab("tab-2") {
        TabClose::Removed { index, select } => {
            assert_eq!(index, 1);
            assert_eq!(select, Some(1));
        }
        _ => panic!("expected removal"),
    }
    assert_eq!(m.tabs.len(), 2);
    assert_eq!(m.tabs[1].name, "tab-4");
    match m.close_tab("tab-4") {
        TabClose::Removed { index, select } => {
            assert_eq!(index, 1);
            assert_eq!(select, Some(0));
        }
        _ => panic!("expected removal"),
    }
    assert_eq!(m.active, 0);
    assert_eq!(m.tabs.len(), 1);
}

#[test]
fn splitting_adds_a_focused_pane() {
    let mut m = model_with(1);
    let (name, pane) = m.split_target().unwrap();
    assert_eq!((name.as_str(), pane), ("tab-0", 1));
    let id = m.next_id();
    m.add_split_pane(&name, id);
    assert_eq!(m.tabs[0].panes, vec![1, 2]);
    assert_eq!(m.tabs[0].focused, 2);
    assert!(m.focus_pane_in_tab("tab-0", 1));
    assert_eq!(m.active_pane(), Some(1));
    assert!(!m.focus_pane_in_tab("tab-0", 77));
    assert!(!m.focus_pane_in_tab("tab-9", 1));
}

#[test]
fn close_pane_plans() {
    let mut m = model_with(1);
    assert!(matches!(m.close_pane_plan("tab-0", 1), PaneClose::CloseTab));
    assert!(matches!(m.close_pane_plan("tab-5", 1), PaneClose::NoTab));
    let id = m.next_id();
    m.add_split_pane("tab-0", id);
    assert!(matches!(m.close_pane_plan("tab-0", 1), PaneClose::Detach));
    assert!(matches!(m.close_pane_plan("tab-0", 40), PaneClose::NoPane));
}

#[test]
fn removing_the_focused_pane_moves_focus_to_the_first_left() {
    let mut m = model_with(1);
    let p2 = m.next_id();
    m.add_split_pane("tab-0", p2);
    let p3 = m.next_id();
    m.add_split_pane("tab-0", p3);
    assert_eq!(m.tabs[0].panes, vec![1, 2, 3]);
    assert_eq!(m.remove_pane("tab-0", 3), Some(1));
    assert_eq!(m.tabs[0].panes, vec![1, 2]);
    assert_eq!(m.tabs[0].focused, 1);
    m.focus_pane_in_tab("tab-0", 2);
    assert_eq!(m.remove_pane("tab-0", 1), Some(2));
    assert_eq!(m.tabs[0].panes, vec![2]);
    assert_eq!(m.remove_pane("tab-8", 2), None);
}

#[test]
fn resetting_the_last_tab_keeps_the_focused_pane() {
    let mut m = model_with(1);
    let r = m.reset_last_tab().unwrap();
    assert_eq!(r.keep, 1);
    assert!(!r.collapsed);
    let p2 = m.next_id();
    m.add_split_pane("tab-0", p2);
    let r = m.reset_last_tab().unwrap();
    assert_eq!(r.keep, 2);
    assert!(r.collapsed);
    assert_eq!(m.tabs[0].panes, vec![2]);
    assert!(TabModel::new().reset_last_tab().is_none());
}

#[test]
fn last_session_and_strip_visibility() {
    let mut m = model_with(1);
    assert!(m.is_last_session(1));
    assert!(!m.is_last_session(2));
    assert!(!m.tab_strip_visible());
    m.add_tab();
    assert!(m.tab_strip_visible());
    assert!(!m.is_last_session(1));
    let (name, pane) = m.active_target().unwrap();
    assert_eq!((name.as_str(), pane), ("tab-2", 3));
}

#[test]
fn finding_a_pane_and_a_tab_focus() {
    let mut m = model_with(2);
    let p = m.next_id();
    m.add_split_pane("tab-2", p);
    assert_eq!(m.tab_of_pane(1), Some(0));
    assert_eq!(m.tab_of_pane(p), Some(1));
    assert_eq!(m.tab_of_pane(99), None);
    assert_eq!(m.focused_in("tab-2"), Some(p));
    assert_eq!(m.focused_in("tab-0"), Some(1));
    assert_eq!(m.focused_in("tab-7"), None);
}

#[test]
fn tab_names_stay_distinct() {
    let mut m = model_with(4);
    m.close_tab("tab-2");
    m.add_tab();
    let mut names: Vec<String> = m.tabs.iter().map(|t| t.name.clone()).collect();
    names.sort();
    names.dedup();
    assert_eq!(names.len(), m.tabs.len());
}

#[test]
fn closing_panes_keeps_a_tab() {
    let mut m = model_with(2);
    let p = m.next_id();
    m.add_split_pane("tab-2", p);
    // Two panes: the pane goes, focus moves to the first one left.
    assert!(matches!(m.close_pane_plan("tab-2", p), PaneClose::Detach));
    assert_eq!(m.remove_pane("tab-2", p), Some(3));
    assert_eq!(m.tabs[1].panes, vec![3]);
    // One pane, two tabs: the tab goes.
    assert!(matches!(m.close_pane_plan("tab-2", 3), PaneClose::CloseTab));
    assert!(matches!(m.close_tab("tab-2"), TabClose::Removed { .. }));
    assert_eq!(m.tabs.len(), 1);
    // One pane in the only tab: it stays.
    assert!(matches!(m.close_pane_plan("tab-0", 1), PaneClose::CloseTab));
    assert!(matches!(m.close_tab("tab-0"), TabClose::ResetLast));
    let r = m.reset_last_tab().unwrap();
    assert!(!r.collapsed);
    assert_eq!(m.tabs.len(), 1);
    assert_eq!(m.tabs[0].panes, vec![1]);
}
