//! Which accordion containers a tiling resize passes through on its way
//! from a window up to the container being resized.
use vstd::prelude::*;
use crate::common::{ContainerKind, TilingDirection, TilingLayout};
use crate::error::WmError;
use crate::tree::{ContainerTree, ContainerView, tree_wf, links_ok, tiling_children, lemma_index_of_unique};

verus! {

/// An accordion on the way: `child` is the container under it on the way
/// up, at position `child_index` among its `child_count` tiling children.
#[derive(Clone, Copy, Debug, PartialEq, Eq, Structural)]
pub struct AccordionResizeStep {
    pub child: usize,
    pub child_index: usize,
    pub child_count: usize,
}

/// The step that parent `p` of `c` contributes: one when `p` is an
/// accordion laid out along `dir` with more than one tiling child (`c`
/// must be one of them), none otherwise.
pub open spec fn accordion_step(t: Seq<ContainerView>, c: usize, p: usize, dir: TilingDirection) -> Result<Option<AccordionResizeStep>, WmError> {
    let tc = tiling_children(t, p);
    if t[p as int].layout == TilingLayout::Accordion && t[p as int].direction == dir && tc.len() > 1 {
        if tc.contains(c) {
            Ok(Some(AccordionResizeStep { child: c, child_index: tc.index_of(c) as usize, child_count: tc.len() as usize }))
        } else {
            Err(WmError::NotInDirectionContainer)
        }
    } else {
        Ok(None)
    }
}

pub open spec fn prepend_step(s: Option<AccordionResizeStep>, rest: Seq<AccordionResizeStep>) -> Seq<AccordionResizeStep> {
    match s {
        Some(x) => seq![x] + rest,
        None => rest,
    }
}

/// The accordion steps from `c` up to `target` (at most `fuel` levels),
/// nearest first: each parent on the way must be a workspace or split
/// container, and the climb continues through split containers only.
pub open spec fn spec_accordion_resize_steps(
    t: Seq<ContainerView>,
    c: usize,
    target: usize,
    dir: TilingDirection,
    fuel: nat,
) -> Result<Seq<AccordionResizeStep>, WmError>
    decreases fuel,
{
    if c == target {
        Ok(Seq::empty())
    } else if fuel == 0 {
        Err(WmError::AncestorNotFound)
    } else {
        match t[c as int].parent {
            None => Err(WmError::NoDirectionContainer),
            Some(p) => if !t[p as int].kind.is_direction_container() {
                Err(WmError::NoDirectionContainer)
            } else {
                match accordion_step(t, c, p, dir) {
                    Err(e) => Err(e),
                    Ok(s) => if t[p as int].kind != ContainerKind::Split {
                        Err(WmError::AncestorNotFound)
                    } else {
                        match spec_accordion_resize_steps(t, p, target, dir, (fuel - 1) as nat) {
                            Err(e) => Err(e),
                            Ok(rest) => Ok(prepend_step(s, rest)),
                        }
                    },
                }
            },
        }
    }
}

/// See [`spec_accordion_resize_steps`], climbing at most as many levels as
/// there are containers.
pub fn accordion_resize_steps(
    tree: &ContainerTree,
    window: usize,
    target: usize,
    dir: TilingDirection,
) -> (res: Result<Vec<AccordionResizeStep>, WmError>)
    requires
        tree_wf(tree@),
        window < tree@.len(),
    ensures
        match (res, spec_accordion_resize_steps(tree@, window, target, dir, tree@.len() as nat)) {
            (Ok(v), Ok(s)) => v@ == s,
            (Err(e), Err(f)) => e == f,
            _ => false,
        },
{
    let ghost t = tree@;
    let mut steps: Vec<AccordionResizeStep> = Vec::new();
    let mut cur = window;
    let mut fuel = tree.len();
    loop
        invariant
            t == tree@,
            tree_wf(t),
            cur < t.len(),
            spec_accordion_resize_steps(t, window, target, dir, t.len() as nat) == (match spec_accordion_resize_steps(t, cur, target, dir, fuel as nat) {
                Ok(rest) => Ok(steps@ + rest),
                Err(e) => Err(e),
            }),
        decreases fuel,
    {
        if cur == target {
            proof {
                assert(steps@ + Seq::<AccordionResizeStep>::empty() =~= steps@);
            }
            return Ok(steps);
        }
        if fuel == 0 {
            return Err(WmError::AncestorNotFound);
        }
        let p = match tree.parent(cur) {
            None => { return Err(WmError::NoDirectionContainer); },
            Some(p) => p,
        };
        proof {
            assert(links_ok(t, cur as int));
        }
        let k = tree.kind(p);
        if !(k == ContainerKind::Workspace || k == ContainerKind::Split) {
            return Err(WmError::NoDirectionContainer);
        }
        let ghost before = steps@;
        if tree.tiling_layout(p) == TilingLayout::Accordion && tree.tiling_direction(p) == dir {
            let tc = tree.tiling_children(p);
            if tc.len() > 1 {
                match crate::seqs::position(&tc, cur) {
                    None => { return Err(WmError::NotInDirectionContainer); },
                    Some(i) => {
                        proof {
                            assert(links_ok(t, p as int));
                            crate::seqs::lemma_filter_no_dup(t[p as int].children, crate::tree::tiling_pred(t));
                            lemma_index_of_unique(tc@, i as int);
                        }
                        steps.push(AccordionResizeStep { child: cur, child_index: i, child_count: tc.len() });
                    },
                }
            }
        }
        if k != ContainerKind::Split {
            return Err(WmError::AncestorNotFound);
        }
        proof {
            let s = accordion_step(t, cur, p, dir);
            assert(s is Ok);
            assert(steps@ == before + prepend_step(s->Ok_0, Seq::empty()));
            match spec_accordion_resize_steps(t, p, target, dir, (fuel - 1) as nat) {
                Ok(rest) => {
                    assert(steps@ + rest =~= before + prepend_step(s->Ok_0, rest));
                },
                Err(_) => {},
            }
        }
        cur = p;
        fuel = fuel - 1;
    }
}

} // verus!
