use wm::common::{ContainerKind, TilingDirection, TilingLayout};
use wm::error::WmError;
use wm::resize::{accordion_resize_steps, AccordionResizeStep};
use wm::tree::{attach_container, ContainerTree};

const H: TilingDirection = TilingDirection::Horizontal;
const V: TilingDirection = TilingDirection::Vertical;

fn add(tree: &mut ContainerTree, parent: Option<usize>, kind: ContainerKind, dir: TilingDirection, layout: TilingLayout) -> usize {
    let id = tree.add_container(kind, dir, layout);
    if let Some(p) = parent {
        attach_container(tree, id, p, None).unwrap();
    }
    id
}

/// ws -> outer (horizontal accordion) -> [a, inner (vertical accordion) -> [w, b]]
fn setup() -> (ContainerTree, usize, usize, usize, usize, usize) {
    let mut tree = ContainerTree::new();
    let ws = add(&mut tree, None, ContainerKind::Workspace, H, TilingLayout::Tiling);
    let outer = add(&mut tree, Some(ws), ContainerKind::Split, H, TilingLayout::Accordion);
    let _a = add(&mut tree, Some(outer), ContainerKind::TilingWindow, H, TilingLayout::Tiling);
    let inner = add(&mut tree, Some(outer), ContainerKind::Split, V, TilingLayout::Accordion);
    let w = add(&mut tree, Some(inner), ContainerKind::TilingWindow, H, TilingLayout::Tiling);
    let b = add(&mut tree, Some(inner), ContainerKind::TilingWindow, H, TilingLayout::Tiling);
    (tree, ws, outer, inner, w, b)
}

#[test]
fn accordions_along_the_resize_axis_are_steps() {
    let (tree, _, outer, inner, w, _) = setup();
    assert_eq!(
        accordion_resize_steps(&tree, w, outer, H),
        Ok(vec![AccordionResizeStep { child: inner, child_index: 1, child_count: 2 }])
    );
    assert_eq!(
        accordion_resize_steps(&tree, w, outer, V),
        Ok(vec![AccordionResizeStep { child: w, child_index: 0, child_count: 2 }])
    );
    assert_eq!(accordion_resize_steps(&tree, w, w, V), Ok(vec![]));
}

#[test]
fn the_climb_stops_at_the_workspace() {
    let (tree, ws, _, _, w, b) = setup();
    assert_eq!(accordion_resize_steps(&tree, w, b, V), Err(WmError::AncestorNotFound));
    assert_eq!(accordion_resize_steps(&tree, w, ws, V), Err(WmError::AncestorNotFound));
    let mut tree = tree;
    let lone = add(&mut tree, None, ContainerKind::TilingWindow, H, TilingLayout::Tiling);
    assert_eq!(accordion_resize_steps(&tree, lone, ws, V), Err(WmError::NoDirectionContainer));
}
