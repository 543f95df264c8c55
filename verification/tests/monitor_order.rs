use wm::common::{ContainerKind, TilingDirection, TilingLayout};
use wm::monitor_order::{sort_monitors_with_config, stable_sort_by_key, MonitorSortKey};
use wm::tree::{attach_container, ContainerTree};

fn add(tree: &mut ContainerTree, parent: Option<usize>, kind: ContainerKind) -> usize {
    let id = tree.add_container(kind, TilingDirection::Horizontal, TilingLayout::Tiling);
    if let Some(p) = parent {
        attach_container(tree, id, p, None).unwrap();
    }
    id
}

fn unconfigured(x: i32, y: i32) -> MonitorSortKey {
    MonitorSortKey { config_index: None, x, y }
}

fn configured(i: usize) -> MonitorSortKey {
    MonitorSortKey { config_index: Some(i), x: 0, y: 0 }
}

#[test]
fn configured_monitors_come_first_then_by_position() {
    let mut tree = ContainerTree::new();
    let root = add(&mut tree, None, ContainerKind::Root);
    let m1 = add(&mut tree, Some(root), ContainerKind::Monitor);
    let m2 = add(&mut tree, Some(root), ContainerKind::Monitor);
    let m3 = add(&mut tree, Some(root), ContainerKind::Monitor);
    let m4 = add(&mut tree, Some(root), ContainerKind::Monitor);
    let m5 = add(&mut tree, Some(root), ContainerKind::Monitor);
    let mut keys = vec![unconfigured(0, 0); tree.len()];
    keys[m1] = unconfigured(1920, 0);
    keys[m2] = configured(1);
    keys[m3] = configured(0);
    keys[m4] = unconfigured(0, 0);
    keys[m5] = unconfigured(0, -1080);
    let order = sort_monitors_with_config(&mut tree, root, &keys);
    assert_eq!(order, vec![m3, m2, m5, m4, m1]);
    assert_eq!(tree.children(root), order);
}

#[test]
fn monitors_that_rank_alike_keep_their_order() {
    let keys = vec![unconfigured(5, 5), configured(2), unconfigured(5, 5), configured(2), unconfigured(0, 9)];
    assert_eq!(stable_sort_by_key(&vec![0, 1, 2, 3, 4], &keys), vec![1, 3, 4, 0, 2]);
    assert_eq!(stable_sort_by_key(&vec![2, 3, 0, 1, 4], &keys), vec![3, 1, 4, 2, 0]);
    assert_eq!(stable_sort_by_key(&vec![], &keys), Vec::<usize>::new());
}

#[test]
fn sorting_monitors_twice_changes_nothing_the_second_time() {
    let mut tree = ContainerTree::new();
    let root = add(&mut tree, None, ContainerKind::Root);
    let a = add(&mut tree, Some(root), ContainerKind::Monitor);
    let b = add(&mut tree, Some(root), ContainerKind::Monitor);
    let c = add(&mut tree, Some(root), ContainerKind::Monitor);
    let mut keys = vec![unconfigured(0, 0); tree.len()];
    keys[a] = unconfigured(3000, 0);
    keys[b] = unconfigured(3000, 0);
    keys[c] = configured(4);
    let first = sort_monitors_with_config(&mut tree, root, &keys);
    assert_eq!(first, vec![c, a, b]);
    let second = sort_monitors_with_config(&mut tree, root, &keys);
    assert_eq!(second, first);
}
