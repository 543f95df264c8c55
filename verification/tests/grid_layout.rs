use wm::common::{ContainerKind, TilingDirection, TilingLayout};
use wm::error::WmError;
use wm::grid::{add_grid_window, calculate_grid_dimensions, cascade_from_position, find_window_position};
use wm::tree::{attach_container, ContainerTree};

fn add(tree: &mut ContainerTree, parent: Option<usize>, kind: ContainerKind, dir: TilingDirection) -> usize {
    let id = tree.add_container(kind, dir, TilingLayout::Tiling);
    if let Some(p) = parent {
        attach_container(tree, id, p, None).unwrap();
    }
    id
}

/// A workspace with a grid: rows of the given lengths.
fn grid(rows: &[usize]) -> (ContainerTree, usize, usize, Vec<Vec<usize>>) {
    let mut tree = ContainerTree::new();
    let ws = add(&mut tree, None, ContainerKind::Workspace, TilingDirection::Horizontal);
    let main = add(&mut tree, Some(ws), ContainerKind::Split, TilingDirection::Vertical);
    let mut cells = Vec::new();
    for &n in rows {
        let row = add(&mut tree, Some(main), ContainerKind::Split, TilingDirection::Horizontal);
        let mut r = Vec::new();
        for _ in 0..n {
            r.push(add(&mut tree, Some(row), ContainerKind::TilingWindow, TilingDirection::Horizontal));
        }
        cells.push(r);
    }
    (tree, ws, main, cells)
}

fn row_of(tree: &ContainerTree, main: usize, i: usize) -> Vec<usize> {
    let row = tree.children(main)[i];
    tree.children(row)
}

#[test]
fn grid_dimensions_prefer_columns() {
    assert_eq!(calculate_grid_dimensions(1), (1, 1));
    assert_eq!(calculate_grid_dimensions(2), (1, 2));
    assert_eq!(calculate_grid_dimensions(3), (2, 2));
    assert_eq!(calculate_grid_dimensions(4), (2, 2));
    assert_eq!(calculate_grid_dimensions(5), (2, 3));
    assert_eq!(calculate_grid_dimensions(7), (3, 3));
    assert_eq!(calculate_grid_dimensions(10), (3, 4));
}

#[test]
fn window_positions_are_found_row_by_row() {
    let (tree, _, main, cells) = grid(&[2, 1]);
    assert_eq!(find_window_position(&tree, main, cells[1][0]), Ok((1, 0)));
    assert_eq!(find_window_position(&tree, main, cells[0][1]), Ok((0, 1)));
    assert_eq!(find_window_position(&tree, main, main), Err(WmError::TargetNotFound));
}

#[test]
fn first_window_goes_into_the_empty_workspace() {
    let mut tree = ContainerTree::new();
    let ws = add(&mut tree, None, ContainerKind::Workspace, TilingDirection::Horizontal);
    let w = add_grid_window(&mut tree, ws, ws).unwrap();
    assert_eq!(tree.children(ws), vec![w]);
    assert_eq!(tree.kind(w), ContainerKind::TilingWindow);
}

#[test]
fn second_window_starts_the_grid() {
    let mut tree = ContainerTree::new();
    let ws = add(&mut tree, None, ContainerKind::Workspace, TilingDirection::Horizontal);
    let first = add(&mut tree, Some(ws), ContainerKind::TilingWindow, TilingDirection::Horizontal);
    let w = add_grid_window(&mut tree, ws, first).unwrap();
    let main = tree.children(ws)[0];
    assert_eq!(tree.tiling_direction(main), TilingDirection::Vertical);
    let row = tree.children(main)[0];
    assert_eq!(tree.tiling_direction(row), TilingDirection::Horizontal);
    assert_eq!(tree.children(row), vec![first, w]);
}

#[test]
fn window_goes_right_of_target_when_its_row_has_room() {
    let (mut tree, ws, main, cells) = grid(&[2, 1]);
    let w = add_grid_window(&mut tree, ws, cells[1][0]).unwrap();
    assert_eq!(row_of(&tree, main, 1), vec![cells[1][0], w]);
}

#[test]
fn full_row_end_fills_the_column_below() {
    let (mut tree, ws, main, cells) = grid(&[2, 1]);
    // Three windows plus the new one: two columns, so the top row is full.
    let w = add_grid_window(&mut tree, ws, cells[0][1]).unwrap();
    assert_eq!(row_of(&tree, main, 0), cells[0]);
    assert_eq!(row_of(&tree, main, 1), vec![cells[1][0], w]);
}

#[test]
fn full_grid_end_opens_a_new_row() {
    let (mut tree, ws, main, cells) = grid(&[3, 3]);
    let w = add_grid_window(&mut tree, ws, cells[1][2]).unwrap();
    assert_eq!(tree.child_count(main), 3);
    assert_eq!(row_of(&tree, main, 2), vec![w]);
}

#[test]
fn inserting_inside_a_full_row_cascades() {
    let (mut tree, ws, main, cells) = grid(&[3, 3]);
    let w = add_grid_window(&mut tree, ws, cells[0][0]).unwrap();
    assert_eq!(row_of(&tree, main, 0), vec![cells[0][0], w, cells[0][1]]);
    assert_eq!(row_of(&tree, main, 1), vec![cells[0][2], cells[1][0], cells[1][1]]);
    assert_eq!(row_of(&tree, main, 2), vec![cells[1][2]]);
}

#[test]
fn cascade_shifts_windows_and_opens_a_row_at_the_end() {
    let (mut tree, _, main, cells) = grid(&[2, 2]);
    let w = tree.add_container(ContainerKind::TilingWindow, TilingDirection::Horizontal, TilingLayout::Tiling);
    cascade_from_position(&mut tree, main, w, 0, 1, 2).unwrap();
    assert_eq!(row_of(&tree, main, 0), vec![cells[0][0], w]);
    assert_eq!(row_of(&tree, main, 1), vec![cells[0][1], cells[1][0]]);
    assert_eq!(row_of(&tree, main, 2), vec![cells[1][1]]);
}
