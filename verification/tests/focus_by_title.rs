use wm::common::{ContainerKind, TilingDirection, TilingLayout};
use wm::error::WmError;
use wm::focus::{focus_window, set_focused_descendant, FocusTarget};
use wm::sync::focused_container;
use wm::tree::{attach_container, ContainerTree};

fn add(tree: &mut ContainerTree, parent: Option<usize>, kind: ContainerKind) -> usize {
    let id = tree.add_container(kind, TilingDirection::Horizontal, TilingLayout::Tiling);
    if let Some(p) = parent {
        attach_container(tree, id, p, None).unwrap();
    }
    id
}

/// root -> monitor -> [ws1 -> [w1 "Terminal"], ws2 -> [w2 "Firefox - Docs"]]
fn setup() -> (ContainerTree, usize, usize, usize, usize, usize, Vec<String>) {
    let mut tree = ContainerTree::new();
    let root = add(&mut tree, None, ContainerKind::Root);
    let mon = add(&mut tree, Some(root), ContainerKind::Monitor);
    let ws1 = add(&mut tree, Some(mon), ContainerKind::Workspace);
    let ws2 = add(&mut tree, Some(mon), ContainerKind::Workspace);
    let w1 = add(&mut tree, Some(ws1), ContainerKind::TilingWindow);
    let w2 = add(&mut tree, Some(ws2), ContainerKind::TilingWindow);
    let mut titles: Vec<String> = (0..tree.len()).map(|_| String::new()).collect();
    titles[w1] = "Terminal".to_string();
    titles[w2] = "Firefox - Docs".to_string();
    (tree, root, ws1, ws2, w1, w2, titles)
}

#[test]
fn the_first_matching_window_is_targeted() {
    let (tree, root, _, ws2, _, w2, titles) = setup();
    let words = vec!["^Firefox".to_string(), "-".to_string()];
    assert_eq!(
        focus_window(&tree, root, &titles, &words),
        Ok(Some(FocusTarget { window: w2, switch_to_workspace: Some(ws2) }))
    );
}

#[test]
fn a_window_on_the_focused_workspace_needs_no_switch() {
    let (tree, root, _, _, w1, _, titles) = setup();
    let words = vec!["Term.*".to_string()];
    assert_eq!(
        focus_window(&tree, root, &titles, &words),
        Ok(Some(FocusTarget { window: w1, switch_to_workspace: None }))
    );
}

#[test]
fn no_match_and_invalid_patterns() {
    let (tree, root, _, _, _, _, titles) = setup();
    assert_eq!(focus_window(&tree, root, &titles, &vec!["^Docs".to_string()]), Ok(None));
    assert_eq!(focus_window(&tree, root, &titles, &vec!["(unclosed".to_string()]), Err(WmError::InvalidPattern));
}

#[test]
fn focusing_a_descendant_updates_every_ancestor() {
    let (mut tree, root, ws1, ws2, w1, w2, _) = setup();
    assert_eq!(focused_container(&tree, root), Some(w1));
    set_focused_descendant(&mut tree, w2, None);
    assert_eq!(focused_container(&tree, root), Some(w2));
    let mon = tree.parent(ws1).unwrap();
    assert_eq!(tree.focus_order(mon), vec![ws2, ws1]);
    set_focused_descendant(&mut tree, w1, Some(ws1));
    assert_eq!(tree.focus_order(mon), vec![ws2, ws1]);
}
