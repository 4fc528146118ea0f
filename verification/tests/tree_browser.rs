//! The tree model, the selection set and the browser state machine.

use dropkick::browser::{BrowserState, InputAction, Mode, ScrollIndicator, Step, StyledLine};
use dropkick::selection::SelectionSet;
use dropkick::tree::{build_tree, NodeKind, RawEntry, TreeNode};

fn file(name: &str) -> RawEntry {
    RawEntry { name: name.to_string(), kind: NodeKind::File, children: vec![] }
}

fn dir(name: &str, children: Vec<RawEntry>) -> RawEntry {
    RawEntry { name: name.to_string(), kind: NodeKind::Directory, children }
}

fn sample_tree() -> TreeNode {
    // raw snapshot deliberately unsorted and with entries to filter
    let raw = dir(
        "templates",
        vec![
            dir(
                "web",
                vec![
                    file("z.txt.tt"),
                    file("a.rs.tt"),
                    file("notes.md"),  // no marker suffix: invisible
                ],
            ),
            dir(".git", vec![file("config.tt")]),  // fixed name: invisible
            dir("cli", vec![file("main.rs.tt")]),
            file(".DS_Store"),
        ],
    );
    build_tree("/root/.dropkick/templates", &raw)
}

#[test]
fn tree_filters_and_sorts() {
    let t = sample_tree();
    assert_eq!(t.id, "/root/.dropkick/templates");
    assert_eq!(t.children.len(), 2);
    // sorted by full path: cli before web
    assert_eq!(t.children[0].name, "cli");
    assert_eq!(t.children[1].name, "web");
    let web = &t.children[1];
    assert_eq!(web.id, "/root/.dropkick/templates/web");
    let names: Vec<&str> = web.children.iter().map(|c| c.name.as_str()).collect();
    assert_eq!(names, vec!["a.rs.tt", "z.txt.tt"]);
    assert!(matches!(web.children[0].kind, NodeKind::File));
}

#[test]
fn empty_root_builds_empty_tree() {
    // a missing or empty root is an empty snapshot, not an error
    let t = build_tree("/root/.dropkick/templates", &dir("templates", vec![]));
    assert_eq!(t.children.len(), 0);
}

#[test]
fn empty_directories_still_appear() {
    let t = build_tree("/r", &dir("t", vec![dir("empty", vec![])]));
    assert_eq!(t.children.len(), 1);
    assert_eq!(t.children[0].name, "empty");
    assert_eq!(t.children[0].children.len(), 0);
}

#[test]
fn toggle_twice_restores_selection() {
    let mut s = SelectionSet::new();
    assert!(!s.contains("a"));
    s.toggle("a");
    assert!(s.contains("a"));
    s.toggle("b");
    assert_eq!(s.len(), 2);
    // toggling the same identifier twice restores the prior state
    s.toggle("a");
    s.toggle("a");
    assert!(s.contains("a"));
    assert_eq!(s.len(), 2);
    s.toggle("a");
    assert!(!s.contains("a"));
    assert!(s.contains("b"));
    assert_eq!(s.len(), 1);
}

#[test]
fn sorted_ids_are_sorted_and_unique() {
    let mut s = SelectionSet::new();
    s.toggle("b");
    s.toggle("a");
    s.toggle("c");
    assert_eq!(s.sorted_ids(), vec!["a", "b", "c"]);
}

#[test]
fn new_browser_opens_first_root_directory() {
    let b = BrowserState::new(sample_tree());
    assert_eq!(b.cursor, 0);
    assert!(matches!(b.mode, Mode::TreeView));
    let rows = b.visible_rows();
    // cli is open: its file shows between the two top-level dirs
    let ids: Vec<&str> = rows.iter().map(|r| r.id.as_str()).collect();
    assert_eq!(
        ids,
        vec![
            "/root/.dropkick/templates/cli",
            "/root/.dropkick/templates/cli/main.rs.tt",
            "/root/.dropkick/templates/web",
        ]
    );
    assert_eq!(rows[1].depth, 1);
}

#[test]
fn cursor_moves_and_stops_at_edges() {
    let mut b = BrowserState::new(sample_tree());
    assert!(matches!(b.handle_action(InputAction::Up, 10), Step::Continue));
    assert_eq!(b.cursor, 0);
    b.handle_action(InputAction::Down, 10);
    assert_eq!(b.cursor, 1);
    b.handle_action(InputAction::Down, 10);
    b.handle_action(InputAction::Down, 10);
    b.handle_action(InputAction::Down, 10);
    assert_eq!(b.cursor, 2);
    b.handle_action(InputAction::Up, 10);
    assert_eq!(b.cursor, 1);
}

#[test]
fn toggle_selects_only_files() {
    let mut b = BrowserState::new(sample_tree());
    // cursor on the cli directory: toggling does nothing
    b.handle_action(InputAction::Toggle, 10);
    assert!(b.selection.is_empty());
    // on the file row it selects, and again deselects
    b.handle_action(InputAction::Down, 10);
    b.handle_action(InputAction::Toggle, 10);
    assert!(b.selection.contains("/root/.dropkick/templates/cli/main.rs.tt"));
    b.handle_action(InputAction::Toggle, 10);
    assert!(b.selection.is_empty());
}

#[test]
fn right_expands_directories_and_requests_files() {
    let mut b = BrowserState::new(sample_tree());
    b.handle_action(InputAction::Down, 10);
    b.handle_action(InputAction::Down, 10);
    // cursor on web, closed: right expands it
    let step = b.handle_action(InputAction::Right, 10);
    assert!(matches!(step, Step::Continue));
    let ids: Vec<String> = b.visible_rows().into_iter().map(|r| r.id).collect();
    assert!(ids.contains(&"/root/.dropkick/templates/web/a.rs.tt".to_string()));
    // on a file: right asks the shell to show it
    b.handle_action(InputAction::Down, 10);
    let step = b.handle_action(InputAction::Right, 10);
    match step {
        Step::ViewFile(p) => assert_eq!(p, "/root/.dropkick/templates/web/a.rs.tt"),
        _ => panic!("expected a view request"),
    }
}

#[test]
fn left_collapses_and_reselects() {
    let mut b = BrowserState::new(sample_tree());
    // on the open cli directory: left collapses it in place
    b.handle_action(InputAction::Left, 10);
    let ids: Vec<String> = b.visible_rows().into_iter().map(|r| r.id).collect();
    assert_eq!(
        ids,
        vec![
            "/root/.dropkick/templates/cli".to_string(),
            "/root/.dropkick/templates/web".to_string(),
        ]
    );
    // on a top-level row with nothing to collapse: back to the first row
    b.handle_action(InputAction::Down, 10);
    b.handle_action(InputAction::Left, 10);
    assert_eq!(b.cursor, 0);
}

#[test]
fn left_on_nested_file_collapses_parent() {
    let mut b = BrowserState::new(sample_tree());
    // cursor to the file under the open cli directory
    b.handle_action(InputAction::Down, 10);
    b.handle_action(InputAction::Left, 10);
    // the parent collapsed and the cursor sits on it
    assert_eq!(b.cursor, 0);
    assert_eq!(b.visible_rows().len(), 2);
}

fn plain_lines(n: usize) -> Vec<StyledLine> {
    (0..n).map(|i| StyledLine { spans: vec![(format!("line {}", i), 0xffffff)] }).collect()
}

#[test]
fn file_view_scrolls_and_stops_at_bottom() {
    let mut b = BrowserState::new(sample_tree());
    b.enter_file_view("f".to_string(), plain_lines(10));
    let viewport = 4;
    // at the top
    assert!(matches!(b.indicator(viewport), ScrollIndicator::Top));
    for _ in 0..6 {
        b.handle_action(InputAction::Down, viewport);
    }
    match &b.mode {
        Mode::FileView { scroll, .. } => assert_eq!(*scroll, 6),
        _ => panic!("expected the file view"),
    }
    // the window reaches the last line: the indicator reads Bottom
    assert!(matches!(b.indicator(viewport), ScrollIndicator::Bottom));
    // and a further step down moves nothing
    b.handle_action(InputAction::Down, viewport);
    match &b.mode {
        Mode::FileView { scroll, .. } => assert_eq!(*scroll, 6),
        _ => panic!("expected the file view"),
    }
}

#[test]
fn file_view_indicator_percent() {
    let mut b = BrowserState::new(sample_tree());
    b.enter_file_view("f".to_string(), plain_lines(10));
    b.handle_action(InputAction::Down, 2);
    b.handle_action(InputAction::Down, 2);
    b.handle_action(InputAction::Down, 2);
    // scroll 3, viewport 2: floor((3 + 1) * 100 / 10) percent
    match b.indicator(2) {
        ScrollIndicator::Percent(p) => assert_eq!(p, 40),
        _ => panic!("expected a percentage"),
    }
}

#[test]
fn file_view_empty_indicator_and_scroll_up_floor() {
    let mut b = BrowserState::new(sample_tree());
    b.enter_file_view("f".to_string(), plain_lines(0));
    assert!(matches!(b.indicator(5), ScrollIndicator::Empty));
    b.handle_action(InputAction::Up, 5);
    match &b.mode {
        Mode::FileView { scroll, .. } => assert_eq!(*scroll, 0),
        _ => panic!("expected the file view"),
    }
}

#[test]
fn back_leaves_file_view() {
    let mut b = BrowserState::new(sample_tree());
    b.enter_file_view("f".to_string(), plain_lines(3));
    b.handle_action(InputAction::Back, 5);
    assert!(matches!(b.mode, Mode::TreeView));
}

#[test]
fn right_on_open_directory_keeps_it_open() {
    let mut b = BrowserState::new(sample_tree());
    let before = b.visible_rows().len();
    // cli is already open: a further step right changes nothing
    assert!(matches!(b.handle_action(InputAction::Right, 10), Step::Continue));
    assert_eq!(b.visible_rows().len(), before);
}

#[test]
fn file_view_ignores_right_and_toggle() {
    let mut b = BrowserState::new(sample_tree());
    b.enter_file_view("f".to_string(), plain_lines(3));
    assert!(matches!(b.handle_action(InputAction::Right, 5), Step::Continue));
    assert!(matches!(b.handle_action(InputAction::Toggle, 5), Step::Continue));
    assert!(matches!(b.mode, Mode::FileView { .. }));
    assert!(b.selection.is_empty());
}

#[test]
fn scroll_clamps_when_viewport_grows() {
    let mut b = BrowserState::new(sample_tree());
    b.enter_file_view("f".to_string(), plain_lines(10));
    for _ in 0..6 {
        b.handle_action(InputAction::Down, 4);
    }
    // a larger viewport pulls the offset back to the new bottom
    b.handle_action(InputAction::Down, 8);
    match &b.mode {
        Mode::FileView { scroll, .. } => assert_eq!(*scroll, 2),
        _ => panic!("expected the file view"),
    }
}

#[test]
fn window_bounds_pads_short_files() {
    // a file shorter than the viewport is padded to fill it
    assert_eq!(dropkick::browser::window_bounds(0, 5, 3), (0, 3, 2));
    assert_eq!(dropkick::browser::window_bounds(2, 4, 10), (2, 6, 0));
    assert_eq!(dropkick::browser::window_bounds(7, 4, 5), (5, 5, 4));
}

#[test]
fn quit_and_export_end_the_loop() {
    let mut b = BrowserState::new(sample_tree());
    assert!(matches!(b.handle_action(InputAction::Quit, 5), Step::Quit));
    assert!(matches!(b.handle_action(InputAction::Export, 5), Step::Export));
}
