use wm::common::{ContainerKind, Direction, TilingDirection, TilingLayout};
use wm::layout::apply_tiling_layout;
use wm::focus::set_focused_descendant;
use wm::sync::focused_container;
use wm::tree::{attach_container, detach_container, swap_container, ContainerTree};

#[test]
fn direction_inverse_twice_is_identity() {
    for d in [Direction::Left, Direction::Right, Direction::Up, Direction::Down] {
        assert_eq!(d.inverse().inverse(), d);
    }
    for d in [
        TilingDirection::Horizontal,
        TilingDirection::Vertical,
        TilingDirection::HorizontalAccordion,
        TilingDirection::VerticalAccordion,
    ] {
        assert_eq!(d.inverse().inverse(), d);
        assert_eq!(d.toggle_accordion().toggle_accordion(), d);
        assert_ne!(d.toggle_accordion().is_accordion(), d.is_accordion());
    }
    assert_eq!(TilingLayout::Tiling.inverse().inverse(), TilingLayout::Tiling);
    assert_eq!(TilingLayout::Accordion.inverse().inverse(), TilingLayout::Accordion);
}

#[test]
fn detach_undoes_attach_on_a_workspace() {
    let mut tree = ContainerTree::new();
    let ws = tree.add_container(ContainerKind::Workspace, TilingDirection::Horizontal, TilingLayout::Tiling);
    let a = tree.add_container(ContainerKind::TilingWindow, TilingDirection::Horizontal, TilingLayout::Tiling);
    attach_container(&mut tree, a, ws, None).unwrap();
    let before = (tree.children(ws), tree.focus_order(ws), tree.parent(a));
    let b = tree.add_container(ContainerKind::TilingWindow, TilingDirection::Horizontal, TilingLayout::Tiling);
    attach_container(&mut tree, b, ws, Some(0)).unwrap();
    detach_container(&mut tree, b).unwrap();
    assert_eq!((tree.children(ws), tree.focus_order(ws), tree.parent(a)), before);
    assert!(tree.is_detached(b));
}

#[test]
fn swap_twice_is_identity() {
    let mut tree = ContainerTree::new();
    let p = tree.add_container(ContainerKind::Workspace, TilingDirection::Horizontal, TilingLayout::Tiling);
    let q = tree.add_container(ContainerKind::Split, TilingDirection::Vertical, TilingLayout::Tiling);
    attach_container(&mut tree, q, p, None).unwrap();
    let a = tree.add_container(ContainerKind::TilingWindow, TilingDirection::Horizontal, TilingLayout::Tiling);
    attach_container(&mut tree, a, p, Some(0)).unwrap();
    let b = tree.add_container(ContainerKind::TilingWindow, TilingDirection::Horizontal, TilingLayout::Tiling);
    attach_container(&mut tree, b, q, None).unwrap();
    let before = (tree.children(p), tree.children(q), tree.parent(a), tree.parent(b));
    swap_container(&mut tree, a, b);
    swap_container(&mut tree, a, b);
    assert_eq!((tree.children(p), tree.children(q), tree.parent(a), tree.parent(b)), before);
}

#[test]
fn applying_a_layout_twice_changes_nothing_the_second_time() {
    let mut tree = ContainerTree::new();
    let ws = tree.add_container(ContainerKind::Workspace, TilingDirection::Vertical, TilingLayout::Tiling);
    assert!(apply_tiling_layout(&mut tree, ws, TilingLayout::Accordion));
    assert!(!apply_tiling_layout(&mut tree, ws, TilingLayout::Accordion));
    assert_eq!(tree.tiling_direction(ws), TilingDirection::Vertical);
}

#[test]
fn a_focused_window_is_the_focused_container() {
    let h = TilingDirection::Horizontal;
    let mut tree = ContainerTree::new();
    let root = tree.add_container(ContainerKind::Root, h, TilingLayout::Tiling);
    let mut leaves = Vec::new();
    for _ in 0..2 {
        let mon = tree.add_container(ContainerKind::Monitor, h, TilingLayout::Tiling);
        attach_container(&mut tree, mon, root, None).unwrap();
        for _ in 0..2 {
            let ws = tree.add_container(ContainerKind::Workspace, h, TilingLayout::Tiling);
            attach_container(&mut tree, ws, mon, None).unwrap();
            let split = tree.add_container(ContainerKind::Split, h, TilingLayout::Tiling);
            attach_container(&mut tree, split, ws, None).unwrap();
            for _ in 0..2 {
                let w = tree.add_container(ContainerKind::TilingWindow, h, TilingLayout::Tiling);
                attach_container(&mut tree, w, split, None).unwrap();
                leaves.push(w);
            }
        }
    }
    for &w in leaves.iter().rev() {
        set_focused_descendant(&mut tree, w, None);
        assert_eq!(focused_container(&tree, root), Some(w));
    }
}
