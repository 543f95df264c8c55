use wm::common::{ContainerKind, TilingDirection, TilingLayout};
use wm::error::WmError;
use wm::monitors::{
    attach_monitor, bind_workspace_to_new_monitor, consolidate_non_primary_workspaces_onto_primary, disconnect_monitor,
    focus_monitor, move_workspace_to_monitor, rebind_workspaces_to_monitors, record_disconnect, remove_monitor,
    sync_workspaces_to_monitor_topology, DisconnectedMonitor, MonitorBindingStep, MonitorIdentity, TopologySync,
    WorkspaceBinding, WorkspaceMoved, GHOST_TTL_MS,
};
use wm::tree::{attach_container, ContainerTree, TreeError};

fn add(tree: &mut ContainerTree, parent: Option<usize>, kind: ContainerKind) -> usize {
    let id = tree.add_container(kind, TilingDirection::Horizontal, TilingLayout::Tiling);
    if let Some(p) = parent {
        attach_container(tree, id, p, None).unwrap();
    }
    id
}

/// root -> [m1 -> [a (with a window), b], m2 -> [c]]
struct Setup {
    tree: ContainerTree,
    root: usize,
    m1: usize,
    m2: usize,
    a: usize,
    b: usize,
    c: usize,
    names: Vec<String>,
}

fn setup() -> Setup {
    let mut tree = ContainerTree::new();
    let root = add(&mut tree, None, ContainerKind::Root);
    let m1 = add(&mut tree, Some(root), ContainerKind::Monitor);
    let m2 = add(&mut tree, Some(root), ContainerKind::Monitor);
    let a = add(&mut tree, Some(m1), ContainerKind::Workspace);
    let b = add(&mut tree, Some(m1), ContainerKind::Workspace);
    let c = add(&mut tree, Some(m2), ContainerKind::Workspace);
    add(&mut tree, Some(a), ContainerKind::TilingWindow);
    let mut names: Vec<String> = (0..tree.len()).map(|_| String::new()).collect();
    names[a] = "1".to_string();
    names[b] = "2".to_string();
    names[c] = "3".to_string();
    Setup { tree, root, m1, m2, a, b, c, names }
}

fn record(path: Option<&str>, hw: Option<&str>, at: u64) -> DisconnectedMonitor {
    DisconnectedMonitor {
        device_path: path.map(|s| s.to_string()),
        hardware_id: hw.map(|s| s.to_string()),
        device_name: "display".to_string(),
        workspace_names: vec![],
        disconnected_at: at,
    }
}

#[test]
fn focus_monitor_returns_its_displayed_workspace() {
    let s = setup();
    assert_eq!(focus_monitor(&s.tree, s.root, 0), Ok(s.a));
    assert_eq!(focus_monitor(&s.tree, s.root, 1), Ok(s.c));
    assert_eq!(focus_monitor(&s.tree, s.root, 2), Err(WmError::MonitorNotFound));
}

#[test]
fn moving_a_workspace_reports_what_to_redraw() {
    let mut s = setup();
    let moved = move_workspace_to_monitor(&mut s.tree, s.b, s.m2).unwrap();
    assert_eq!(moved.origin, s.m1);
    assert_eq!(moved.displayed_on_target, s.c);
    assert_eq!(moved.origin_displayed, Some(s.a));
    assert_eq!(s.tree.children(s.m2), vec![s.c, s.b]);
    let moved = move_workspace_to_monitor(&mut s.tree, s.a, s.m2).unwrap();
    assert_eq!(moved.origin_displayed, None);
}

#[test]
fn removing_a_monitor_moves_kept_workspaces_to_another() {
    let mut s = setup();
    let keep_alive = vec![false; s.tree.len()];
    let moved = remove_monitor(&mut s.tree, s.root, s.m1, &keep_alive).unwrap();
    assert_eq!(moved, vec![s.a]);
    assert_eq!(s.tree.children(s.m2), vec![s.c, s.a]);
    assert!(s.tree.is_detached(s.m1));
    assert_eq!(s.tree.children(s.root), vec![s.m2]);
}

#[test]
fn the_last_monitor_cannot_be_removed() {
    let mut tree = ContainerTree::new();
    let root = add(&mut tree, None, ContainerKind::Root);
    let m = add(&mut tree, Some(root), ContainerKind::Monitor);
    let keep_alive = vec![false; tree.len()];
    assert_eq!(remove_monitor(&mut tree, root, m, &keep_alive), Err(WmError::NoTargetMonitor));
}

#[test]
fn disconnect_replaces_records_of_the_same_device_and_expired_ones() {
    let mut records = vec![
        record(Some("p1"), None, 0),
        record(Some("p2"), Some("h2"), 10),
        record(None, Some("h3"), 5_000_000),
    ];
    let now = 5_000_000;
    record_disconnect(&mut records, record(Some("p2"), None, now), now);
    assert_eq!(records.len(), 2);
    assert_eq!(records[0].hardware_id.as_deref(), Some("h3"));
    assert_eq!(records[1].device_path.as_deref(), Some("p2"));
    assert_eq!(records[1].disconnected_at, now);
    assert!(GHOST_TTL_MS == 3_600_000);
}

#[test]
fn repeated_disconnects_keep_one_record_per_device() {
    let mut records = Vec::new();
    record_disconnect(&mut records, record(Some("p1"), Some("h1"), 0), 0);
    record_disconnect(&mut records, record(None, Some("h2"), 100), 100);
    record_disconnect(&mut records, record(Some("p1"), None, 200), 200);
    record_disconnect(&mut records, record(Some("p3"), Some("h2"), 300), 300);
    assert_eq!(records.len(), 2);
    assert_eq!(records[0].device_path.as_deref(), Some("p1"));
    assert_eq!(records[0].disconnected_at, 200);
    assert_eq!(records[1].hardware_id.as_deref(), Some("h2"));
    assert_eq!(records[1].disconnected_at, 300);
}

#[test]
fn disconnect_keeps_workspace_names_displayed_first() {
    let mut s = setup();
    let keep_alive = vec![false; s.tree.len()];
    let mut records: Vec<DisconnectedMonitor> = vec![];
    let identity = MonitorIdentity {
        device_path: Some("path".to_string()),
        hardware_id: None,
        device_name: "screen".to_string(),
    };
    let moved = disconnect_monitor(&mut s.tree, s.root, s.m1, &s.names, &keep_alive, &mut records, identity, 42).unwrap();
    assert_eq!(moved, vec![s.a]);
    assert_eq!(records.len(), 1);
    assert_eq!(records[0].workspace_names, vec!["1".to_string(), "2".to_string()]);
    assert_eq!(records[0].disconnected_at, 42);
}

#[test]
fn rebinding_moves_bound_workspaces_to_their_monitor() {
    let mut s = setup();
    let bindings = vec![
        WorkspaceBinding { name: "3".to_string(), bind_to_monitor: Some(0) },
        WorkspaceBinding { name: "1".to_string(), bind_to_monitor: Some(0) },
        WorkspaceBinding { name: "2".to_string(), bind_to_monitor: None },
        WorkspaceBinding { name: "9".to_string(), bind_to_monitor: Some(1) },
    ];
    let moved = rebind_workspaces_to_monitors(&mut s.tree, s.root, &s.names, &bindings);
    // Monitor 2 has no displayed workspace left for `c` to leave behind: the
    // move succeeds and reports its now empty origin.
    let moved = moved.unwrap();
    assert_eq!(moved.len(), 1);
    assert_eq!(moved[0].workspace, s.c);
    assert_eq!(moved[0].origin_displayed, None);
    assert_eq!(s.tree.children(s.m1), vec![s.a, s.b, s.c]);
}

#[test]
fn consolidation_moves_everything_to_the_primary_monitor() {
    let mut s = setup();
    let moved = consolidate_non_primary_workspaces_onto_primary(&mut s.tree, s.root, Some(s.m2)).unwrap();
    assert_eq!(moved.len(), 2);
    assert_eq!(s.tree.children(s.m2), vec![s.c, s.a, s.b]);
    assert_eq!(s.tree.child_count(s.m1), 0);
    let again = consolidate_non_primary_workspaces_onto_primary(&mut s.tree, s.root, Some(s.m2)).unwrap();
    assert!(again.is_empty());
    assert_eq!(
        consolidate_non_primary_workspaces_onto_primary(&mut s.tree, s.root, None),
        Err(WmError::NoPrimaryMonitor)
    );
}

#[test]
fn topology_sync_binds_per_monitor_or_consolidates() {
    let mut s = setup();
    match sync_workspaces_to_monitor_topology(&mut s.tree, s.root, true, Some(s.m1)) {
        Ok(TopologySync::BindWorkspaces(ms)) => assert_eq!(ms, vec![s.m1, s.m2]),
        _ => panic!("expected the monitors to bind"),
    }
    match sync_workspaces_to_monitor_topology(&mut s.tree, s.root, false, Some(s.m1)) {
        Ok(TopologySync::Consolidated(moved)) => assert_eq!(moved.len(), 1),
        _ => panic!("expected a consolidation"),
    }
    assert_eq!(s.tree.children(s.m1), vec![s.a, s.b, s.c]);
}

#[test]
fn an_added_monitor_takes_the_next_index() {
    let mut tree = ContainerTree::new();
    let root = tree.add_container(ContainerKind::Root, TilingDirection::Horizontal, TilingLayout::Tiling);
    let m1 = tree.add_container(ContainerKind::Monitor, TilingDirection::Horizontal, TilingLayout::Tiling);
    assert_eq!(attach_monitor(&mut tree, root, m1), Ok(0));
    let m2 = tree.add_container(ContainerKind::Monitor, TilingDirection::Horizontal, TilingLayout::Tiling);
    assert_eq!(attach_monitor(&mut tree, root, m2), Ok(1));
    assert_eq!(tree.children(root), vec![m1, m2]);
    assert_eq!(attach_monitor(&mut tree, root, m2), Err(WmError::Tree(TreeError::AlreadyAttached)));
}

#[test]
fn bindings_to_a_new_monitor_move_or_activate_their_workspace() {
    let mut tree = ContainerTree::new();
    let h = TilingDirection::Horizontal;
    let root = tree.add_container(ContainerKind::Root, h, TilingLayout::Tiling);
    let m1 = tree.add_container(ContainerKind::Monitor, h, TilingLayout::Tiling);
    attach_monitor(&mut tree, root, m1).unwrap();
    let a = tree.add_container(ContainerKind::Workspace, h, TilingLayout::Tiling);
    attach_container(&mut tree, a, m1, None).unwrap();
    let b = tree.add_container(ContainerKind::Workspace, h, TilingLayout::Tiling);
    attach_container(&mut tree, b, m1, None).unwrap();
    let m2 = tree.add_container(ContainerKind::Monitor, h, TilingLayout::Tiling);
    let index = attach_monitor(&mut tree, root, m2).unwrap();
    let c = tree.add_container(ContainerKind::Workspace, h, TilingLayout::Tiling);
    attach_container(&mut tree, c, m2, None).unwrap();
    let mut names = vec![String::new(); tree.len()];
    names[a] = "1".to_string();
    names[b] = "2".to_string();
    names[c] = "3".to_string();
    let bound = |name: &str, i: u32| WorkspaceBinding { name: name.to_string(), bind_to_monitor: Some(i) };
    // Bound elsewhere: nothing.
    assert_eq!(bind_workspace_to_new_monitor(&mut tree, root, m2, index, &names, &bound("1", 0), false), Ok(None));
    // Bound here and existing: it moves over.
    let step = bind_workspace_to_new_monitor(&mut tree, root, m2, index, &names, &bound("2", 1), false);
    assert_eq!(
        step,
        Ok(Some(MonitorBindingStep::Moved(WorkspaceMoved { workspace: b, origin: m1, displayed_on_target: c, origin_displayed: Some(a) })))
    );
    assert_eq!(tree.children(m2), vec![c, b]);
    // Bound here, missing and kept alive: to activate; not kept alive: nothing.
    assert_eq!(
        bind_workspace_to_new_monitor(&mut tree, root, m2, index, &names, &bound("9", 1), true),
        Ok(Some(MonitorBindingStep::Activate))
    );
    assert_eq!(bind_workspace_to_new_monitor(&mut tree, root, m2, index, &names, &bound("9", 1), false), Ok(None));
}

#[test]
fn binding_again_keeps_the_workspace_on_its_monitor() {
    let mut s = setup();
    let binding = WorkspaceBinding { name: "2".to_string(), bind_to_monitor: Some(1) };
    bind_workspace_to_new_monitor(&mut s.tree, s.root, s.m2, 1, &s.names, &binding, false).unwrap();
    assert_eq!(s.tree.parent(s.b), Some(s.m2));
    let parents: Vec<Option<usize>> = (0..s.tree.len()).map(|i| s.tree.parent(i)).collect();
    bind_workspace_to_new_monitor(&mut s.tree, s.root, s.m2, 1, &s.names, &binding, false).unwrap();
    let again: Vec<Option<usize>> = (0..s.tree.len()).map(|i| s.tree.parent(i)).collect();
    assert_eq!(parents, again);
    assert_eq!(s.tree.children(s.m2), vec![s.c, s.b]);
}

#[test]
fn consolidating_again_leaves_the_tree_as_it_is() {
    let mut s = setup();
    consolidate_non_primary_workspaces_onto_primary(&mut s.tree, s.root, Some(s.m1)).unwrap();
    let before: Vec<Vec<usize>> = (0..s.tree.len()).map(|i| s.tree.children(i)).collect();
    let focus_before: Vec<Vec<usize>> = (0..s.tree.len()).map(|i| s.tree.focus_order(i)).collect();
    let again = consolidate_non_primary_workspaces_onto_primary(&mut s.tree, s.root, Some(s.m1)).unwrap();
    assert!(again.is_empty());
    let after: Vec<Vec<usize>> = (0..s.tree.len()).map(|i| s.tree.children(i)).collect();
    let focus_after: Vec<Vec<usize>> = (0..s.tree.len()).map(|i| s.tree.focus_order(i)).collect();
    assert_eq!(before, after);
    assert_eq!(focus_before, focus_after);
    assert_eq!(s.tree.children(s.m1), vec![s.a, s.b, s.c]);
}
