use wm::common::{ContainerKind, TilingDirection, TilingLayout};
use wm::tree::{
    attach_container, detach_container, flatten_split_container, move_container_within_tree, replace_container,
    swap_container, wrap_in_split_container, ContainerTree, KindClass, TreeError,
};

fn node(tree: &mut ContainerTree, kind: ContainerKind) -> usize {
    tree.add_container(kind, TilingDirection::Horizontal, TilingLayout::Tiling)
}

fn child(tree: &mut ContainerTree, parent: usize, kind: ContainerKind) -> usize {
    let id = node(tree, kind);
    attach_container(tree, id, parent, None).unwrap();
    id
}

#[test]
fn attach_clamps_index_and_appends_to_focus_order() {
    let mut tree = ContainerTree::new();
    let ws = node(&mut tree, ContainerKind::Workspace);
    let a = child(&mut tree, ws, ContainerKind::TilingWindow);
    let b = node(&mut tree, ContainerKind::TilingWindow);
    attach_container(&mut tree, b, ws, Some(10)).unwrap();
    let c = node(&mut tree, ContainerKind::TilingWindow);
    attach_container(&mut tree, c, ws, Some(0)).unwrap();
    assert_eq!(tree.children(ws), vec![c, a, b]);
    assert_eq!(tree.focus_order(ws), vec![a, b, c]);
    assert_eq!(tree.parent(c), Some(ws));
    assert_eq!(attach_container(&mut tree, c, ws, None), Err(TreeError::AlreadyAttached));
}

#[test]
fn detach_after_attach_restores_the_tree() {
    let mut tree = ContainerTree::new();
    let ws = node(&mut tree, ContainerKind::Workspace);
    let a = child(&mut tree, ws, ContainerKind::TilingWindow);
    let b = node(&mut tree, ContainerKind::TilingWindow);
    attach_container(&mut tree, b, ws, Some(0)).unwrap();
    detach_container(&mut tree, b).unwrap();
    assert_eq!(tree.children(ws), vec![a]);
    assert_eq!(tree.focus_order(ws), vec![a]);
    assert!(tree.is_detached(b));
}

#[test]
fn detaching_the_only_child_dissolves_its_split() {
    let mut tree = ContainerTree::new();
    let ws = node(&mut tree, ContainerKind::Workspace);
    let a = child(&mut tree, ws, ContainerKind::TilingWindow);
    let split = child(&mut tree, ws, ContainerKind::Split);
    let b = child(&mut tree, split, ContainerKind::TilingWindow);
    detach_container(&mut tree, b).unwrap();
    assert!(tree.is_detached(split));
    assert!(tree.is_detached(b));
    assert_eq!(tree.children(ws), vec![a]);
    assert_eq!(detach_container(&mut tree, b), Err(TreeError::NoParent));
}

#[test]
fn flatten_moves_children_up_and_inverts_split_children() {
    let mut tree = ContainerTree::new();
    let ws = node(&mut tree, ContainerKind::Workspace);
    let a = child(&mut tree, ws, ContainerKind::TilingWindow);
    let split = child(&mut tree, ws, ContainerKind::Split);
    let inner = child(&mut tree, split, ContainerKind::Split);
    let b = child(&mut tree, split, ContainerKind::TilingWindow);
    flatten_split_container(&mut tree, split).unwrap();
    assert_eq!(tree.children(ws), vec![a, inner, b]);
    assert_eq!(tree.parent(inner), Some(ws));
    assert_eq!(tree.tiling_direction(inner), TilingDirection::Vertical);
    assert!(tree.is_detached(split));
    assert_eq!(flatten_split_container(&mut tree, split), Err(TreeError::NoParent));
}

#[test]
fn wrap_puts_split_at_first_target_position() {
    let mut tree = ContainerTree::new();
    let ws = node(&mut tree, ContainerKind::Workspace);
    let a = child(&mut tree, ws, ContainerKind::TilingWindow);
    let b = child(&mut tree, ws, ContainerKind::TilingWindow);
    let c = child(&mut tree, ws, ContainerKind::TilingWindow);
    let split = node(&mut tree, ContainerKind::Split);
    wrap_in_split_container(&mut tree, split, ws, &vec![c, b]).unwrap();
    assert_eq!(tree.children(ws), vec![a, split]);
    assert_eq!(tree.children(split), vec![c, b]);
    assert_eq!(tree.parent(b), Some(split));
    let other = node(&mut tree, ContainerKind::Split);
    assert_eq!(wrap_in_split_container(&mut tree, other, ws, &vec![]), Err(TreeError::NoTargets));
}

#[test]
fn replace_takes_the_place_and_focus_slot_of_the_old_child() {
    let mut tree = ContainerTree::new();
    let ws = node(&mut tree, ContainerKind::Workspace);
    let a = child(&mut tree, ws, ContainerKind::TilingWindow);
    let b = child(&mut tree, ws, ContainerKind::TilingWindow);
    let r = node(&mut tree, ContainerKind::NonTilingWindow);
    replace_container(&mut tree, r, ws, 0).unwrap();
    assert_eq!(tree.children(ws), vec![r, b]);
    assert_eq!(tree.focus_order(ws), vec![r, b]);
    assert!(tree.is_detached(a));
    assert_eq!(replace_container(&mut tree, b, ws, 0), Err(TreeError::AlreadyAttached));
    assert_eq!(replace_container(&mut tree, a, ws, 5), Err(TreeError::NoContainerAtIndex));
}

#[test]
fn move_within_and_across_parents() {
    let mut tree = ContainerTree::new();
    let ws = node(&mut tree, ContainerKind::Workspace);
    let a = child(&mut tree, ws, ContainerKind::TilingWindow);
    let b = child(&mut tree, ws, ContainerKind::TilingWindow);
    let split = child(&mut tree, ws, ContainerKind::Split);
    let c = child(&mut tree, split, ContainerKind::TilingWindow);
    move_container_within_tree(&mut tree, a, ws, 2).unwrap();
    assert_eq!(tree.children(ws), vec![b, split, a]);
    move_container_within_tree(&mut tree, b, split, 0).unwrap();
    assert_eq!(tree.children(split), vec![b, c]);
    assert_eq!(tree.parent(b), Some(split));
}

#[test]
fn swapping_twice_restores_both_parents() {
    let mut tree = ContainerTree::new();
    let ws = node(&mut tree, ContainerKind::Workspace);
    let a = child(&mut tree, ws, ContainerKind::TilingWindow);
    let split = child(&mut tree, ws, ContainerKind::Split);
    let b = child(&mut tree, split, ContainerKind::TilingWindow);
    swap_container(&mut tree, a, b);
    assert_eq!(tree.children(ws), vec![b, split]);
    assert_eq!(tree.children(split), vec![a]);
    assert_eq!(tree.parent(a), Some(split));
    swap_container(&mut tree, a, b);
    assert_eq!(tree.children(ws), vec![a, split]);
    assert_eq!(tree.children(split), vec![b]);
    assert_eq!(tree.parent(b), Some(split));
}

#[test]
fn nearest_climbs_to_the_requested_class() {
    let mut tree = ContainerTree::new();
    let root = node(&mut tree, ContainerKind::Root);
    let mon = child(&mut tree, root, ContainerKind::Monitor);
    let ws = child(&mut tree, mon, ContainerKind::Workspace);
    let split = child(&mut tree, ws, ContainerKind::Split);
    let w = child(&mut tree, split, ContainerKind::TilingWindow);
    assert_eq!(tree.nearest(w, KindClass::Workspace), Some(ws));
    assert_eq!(tree.nearest(w, KindClass::Monitor), Some(mon));
    assert_eq!(tree.nearest(w, KindClass::DirectionContainer), Some(split));
    assert_eq!(tree.nearest(root, KindClass::Workspace), None);
}
