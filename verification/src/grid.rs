use vstd::prelude::*;
use crate::common::{ContainerKind, TilingDirection, TilingLayout};
use crate::error::WmError;
use crate::tree::{
    ContainerTree, ContainerView, TreeError, tree_wf, links_ok, is_detached, spec_attach, spec_detach,
    detach_error, attach_container, detach_container,
};
use crate::layout::new_split;
use crate::window_state::new_window;
use crate::seqs::{first_index, lemma_first_index};

verus! {

broadcast use vstd::seq_lib::group_seq_properties;

// ---------------------------------------------------------------------
// Grid arithmetic.
// ---------------------------------------------------------------------

/// `s` is the smallest number whose square is at least `n`.
pub open spec fn is_ceil_sqrt(s: int, n: int) -> bool {
    &&& s >= 0
    &&& s * s >= n
    &&& (s == 0 || (s - 1) * (s - 1) < n)
}

/// The rows and columns of a grid for `total_windows` windows: as many
/// columns as the ceiling of the square root, and one row fewer when that
/// still fits them all.
pub fn calculate_grid_dimensions(total_windows: usize) -> (res: (usize, usize))
    requires
        total_windows >= 1,
    ensures
        is_ceil_sqrt(res.1 as int, total_windows as int),
        res.0 == (if res.1 * (res.1 - 1) >= total_windows { res.1 - 1 } else { res.1 as int }),
        res.0 * res.1 >= total_windows,
        res.0 <= res.1 <= res.0 + 1,
{
    let n: u128 = total_windows as u128;
    let mut s: u128 = 0;
    proof {
        assert(n * n <= u128::MAX) by (nonlinear_arith)
            requires
                n <= 0xffff_ffff_ffff_ffffu128,
        ;
    }
    while s * s < n
        invariant
            n == total_windows,
            1 <= n <= usize::MAX,
            n * n <= u128::MAX,
            s <= n,
            s * s <= n * n,
            s == 0 || (s - 1) * (s - 1) < n,
        decreases n - s,
    {
        proof {
            assert(s + 1 <= n) by (nonlinear_arith)
                requires
                    s * s < n,
                    s <= n,
                    n >= 1,
            ;
        }
        s = s + 1;
        proof {
            assert((s - 1) * (s - 1) < n);
            assert(s * s <= n * n) by (nonlinear_arith)
                requires
                    s <= n,
            ;
        }
    }
    proof {
        assert(s >= 1) by {
            if s == 0 {
                assert(s * s == 0);
            }
        }
        assert(s * (s - 1) <= s * s) by (nonlinear_arith)
            requires
                s >= 1,
        ;
        assert(s * s <= n * n) by (nonlinear_arith)
            requires
                s <= n,
        ;
    }
    let fewer = s * (s - 1) >= n;
    let cols = s as usize;
    if fewer {
        proof {
            assert((s - 1) * s == s * (s - 1)) by (nonlinear_arith);
        }
        (cols - 1, cols)
    } else {
        (cols, cols)
    }
}

/// The first position of `x` in `v`, if any.
pub open spec fn first_pos(v: Seq<usize>, x: usize) -> Option<usize> {
    if v.contains(x) { Some(first_index(v, x) as usize) } else { None }
}

/// The first row (from row `i` on) that holds `target`, with its column.
pub open spec fn find_in_rows(t: Seq<ContainerView>, rows: Seq<usize>, target: usize, i: int) -> Option<(usize, usize)>
    decreases rows.len() - i,
{
    if i < 0 || i >= rows.len() {
        None
    } else {
        match first_pos(t[rows[i] as int].children, target) {
            Some(j) => Some((i as usize, j)),
            None => find_in_rows(t, rows, target, i + 1),
        }
    }
}

/// Finds `target` in the grid whose rows are the children of `main`:
/// its row and column.
pub fn find_window_position(tree: &ContainerTree, main: usize, target: usize) -> (res: Result<(usize, usize), WmError>)
    requires
        tree_wf(tree@),
        main < tree@.len(),
    ensures
        match find_in_rows(tree@, tree@[main as int].children, target, 0) {
            Some(p) => res == Ok::<(usize, usize), WmError>(p),
            None => res == Err::<(usize, usize), WmError>(WmError::TargetNotFound),
        },
        res matches Ok((r, c)) ==> r < tree@[main as int].children.len()
            && c < tree@[tree@[main as int].children[r as int] as int].children.len(),
{
    let ghost t = tree@;
    let rows = tree.children(main);
    proof {
        assert(links_ok(t, main as int));
    }
    let mut i: usize = 0;
    while i < rows.len()
        invariant
            t == tree@,
            tree_wf(t),
            main < t.len(),
            rows@ == t[main as int].children,
            links_ok(t, main as int),
            i <= rows.len(),
            find_in_rows(t, rows@, target, 0) == find_in_rows(t, rows@, target, i as int),
        decreases rows.len() - i,
    {
        let row = rows[i];
        proof {
            assert(t[main as int].children[i as int] == row);
        }
        let cells = tree.children(row);
        match crate::seqs::position(&cells, target) {
            Some(j) => {
                proof {
                    lemma_first_index(cells@, target, j as int);
                    assert(cells@.contains(target));
                }
                return Ok((i, j));
            },
            None => {},
        }
        i = i + 1;
    }
    Err(WmError::TargetNotFound)
}


// ---------------------------------------------------------------------
// Inserting a window into a grid.
// ---------------------------------------------------------------------

/// The first of `rows` from index `i` on with fewer than `cols` children.
pub open spec fn first_row_with_space(t: Seq<ContainerView>, rows: Seq<usize>, cols: int, i: int) -> Option<int>
    decreases rows.len() - i,
{
    if i < 0 || i >= rows.len() {
        None
    } else if t[rows[i] as int].children.len() < cols {
        Some(i)
    } else {
        first_row_with_space(t, rows, cols, i + 1)
    }
}

/// The row a cascade step works on, and the column in it: row `cr` of the
/// grid while there is one; past the last row, the first row with space
/// (at its end), or else a new row appended to the grid.
pub open spec fn pick_row(t: Seq<ContainerView>, main: usize, cr: int, cc: int, cols: int) -> (Seq<ContainerView>, usize, int) {
    let rows = t[main as int].children;
    if cr < rows.len() {
        (t, rows[cr], cc)
    } else {
        match first_row_with_space(t, rows, cols, 0) {
            Some(i) => (t, rows[i], t[rows[i] as int].children.len() as int),
            None => {
                let nr = t.len() as usize;
                (spec_attach(t.push(new_split(TilingDirection::Horizontal)), nr, main, None), nr, 0)
            },
        }
    }
}

/// Cascading `cur` into the grid from row `cr`, column `cc`: a taken
/// position passes its window on to the next position (the next column, or
/// the start of the next row after `cols` columns), a free position takes
/// the window and ends the cascade. At most `fuel` positions are visited.
pub open spec fn spec_cascade(t: Seq<ContainerView>, main: usize, cur: usize, cr: int, cc: int, cols: int, fuel: nat) -> (Seq<ContainerView>, Result<(), WmError>)
    decreases fuel,
{
    if fuel == 0 {
        (t, Ok(()))
    } else {
        let picked = pick_row(t, main, cr, cc, cols);
        let t1 = picked.0;
        let row = picked.1;
        let col = picked.2;
        if col < t1[row as int].children.len() {
            let at = t1[row as int].children[col];
            match detach_error(t1, at) {
                Some(e) => (t1, Err(WmError::Tree(e))),
                None => {
                    let t2 = spec_detach(t1, at);
                    if !is_detached(t2, cur) {
                        (t2, Err(WmError::Tree(TreeError::AlreadyAttached)))
                    } else {
                        let t3 = spec_attach(t2, cur, row, Some(col as usize));
                        if col + 1 >= cols {
                            spec_cascade(t3, main, at, cr + 1, 0, cols, (fuel - 1) as nat)
                        } else {
                            spec_cascade(t3, main, at, cr, col + 1, cols, (fuel - 1) as nat)
                        }
                    }
                },
            }
        } else if !is_detached(t1, cur) {
            (t1, Err(WmError::Tree(TreeError::AlreadyAttached)))
        } else {
            (spec_attach(t1, cur, row, Some(col as usize)), Ok(()))
        }
    }
}

/// How many positions a cascade may visit in tree `t`: more than a grid
/// made of its containers has.
pub open spec fn cascade_fuel(t: Seq<ContainerView>) -> nat {
    t.len() * t.len() + 2
}

fn row_with_space(tree: &ContainerTree, main: usize, cols: usize) -> (res: Option<usize>)
    requires
        tree_wf(tree@),
        main < tree@.len(),
    ensures
        match first_row_with_space(tree@, tree@[main as int].children, cols as int, 0) {
            Some(i) => 0 <= i < tree@[main as int].children.len() && res == Some(i as usize),
            None => res is None,
        },
        res matches Some(i) ==> i < tree@[main as int].children.len(),
{
    let ghost t = tree@;
    let n = tree.child_count(main);
    let mut i: usize = 0;
    proof {
        assert(links_ok(t, main as int));
    }
    while i < n
        invariant
            t == tree@,
            tree_wf(t),
            main < t.len(),
            links_ok(t, main as int),
            n == t[main as int].children.len(),
            i <= n,
            first_row_with_space(t, t[main as int].children, cols as int, 0)
                == first_row_with_space(t, t[main as int].children, cols as int, i as int),
        decreases n - i,
    {
        let row = tree.child_at(main, i);
        if tree.child_count(row) < cols {
            return Some(i);
        }
        i = i + 1;
    }
    None
}

/// See [`spec_cascade`], starting with the new window `nw` at row
/// `start_row`, column `start_col`, with [`cascade_fuel`].
pub fn cascade_from_position(
    tree: &mut ContainerTree,
    main: usize,
    nw: usize,
    start_row: usize,
    start_col: usize,
    cols: usize,
) -> (res: Result<(), WmError>)
    requires
        tree_wf(old(tree)@),
        old(tree)@.len() < usize::MAX,
        main < old(tree)@.len(),
        nw < old(tree)@.len(),
        cols >= 1,
    ensures
        tree_wf(final(tree)@),
        (final(tree)@, res) == spec_cascade(old(tree)@, main, nw, start_row as int, start_col as int, cols as int, cascade_fuel(old(tree)@)),
{
    let ghost t = old(tree)@;
    let len0 = tree.len();
    proof {
        assert((len0 as u128) * (len0 as u128) <= 0xffff_ffff_ffff_fffe_0000_0000_0000_0001u128) by (nonlinear_arith)
            requires
                len0 <= 0xffff_ffff_ffff_ffffu128,
        ;
    }
    let mut fuel: u128 = (len0 as u128) * (len0 as u128) + 2;
    proof {
        assert(fuel as nat == cascade_fuel(t));
    }
    let mut cur = nw;
    let mut cr = start_row;
    let mut cc = start_col;
    loop
        invariant
            t == old(tree)@,
            tree_wf(tree@),
            tree@.len() == t.len(),
            t.len() < usize::MAX,
            main < t.len(),
            cur < t.len(),
            cols >= 1,
            spec_cascade(t, main, nw, start_row as int, start_col as int, cols as int, cascade_fuel(t))
                == spec_cascade(tree@, main, cur, cr as int, cc as int, cols as int, fuel as nat),
        decreases fuel,
    {
        let ghost tb = tree@;
        if fuel == 0 {
            return Ok(());
        }
        let n = tree.child_count(main);
        proof {
            assert(links_ok(tb, main as int));
        }
        let row: usize;
        let col: usize;
        let in_range = cr < n;
        if in_range {
            row = tree.child_at(main, cr);
            col = cc;
        } else {
            match row_with_space(tree, main, cols) {
                Some(i) => {
                    row = tree.child_at(main, i);
                    col = tree.child_count(row);
                },
                None => {
                    let nr = tree.add_container(ContainerKind::Split, TilingDirection::Horizontal, TilingLayout::Tiling);
                    proof {
                        assert(tree@ =~= tb.push(new_split(TilingDirection::Horizontal)));
                    }
                    let r = attach_container(tree, nr, main, None);
                    proof {
                        assert(r is Ok);
                    }
                    row = nr;
                    col = 0;
                },
            }
        }
        proof {
            let picked = pick_row(tb, main, cr as int, cc as int, cols as int);
            assert(picked.0 == tree@);
            assert(picked.1 == row);
            assert(picked.2 == col as int);
            assert(row < tree@.len());
        }
        let cells = tree.child_count(row);
        if col < cells {
            proof {
                assert(in_range);
                assert(links_ok(tree@, row as int));
            }
            let at = tree.child_at(row, col);
            match detach_container(tree, at) {
                Err(e) => { return Err(WmError::Tree(e)); },
                Ok(()) => {},
            }
            match attach_container(tree, cur, row, Some(col)) {
                Err(e) => { return Err(WmError::Tree(e)); },
                Ok(()) => {},
            }
            cur = at;
            if col + 1 >= cols {
                cr = cr + 1;
                cc = 0;
            } else {
                cc = col + 1;
            }
            fuel = fuel - 1;
        } else {
            return match attach_container(tree, cur, row, Some(col)) {
                Err(e) => Err(WmError::Tree(e)),
                Ok(()) => Ok(()),
            };
        }
    }
}


/// The ceiling of the square root of `n`.
pub open spec fn ceil_sqrt(n: int) -> int {
    choose|s: int| is_ceil_sqrt(s, n)
}

pub proof fn lemma_ceil_sqrt_unique(a: int, b: int, n: int)
    requires
        is_ceil_sqrt(a, n),
        is_ceil_sqrt(b, n),
    ensures
        a == b,
{
    if a < b {
        assert(a * a <= (b - 1) * (b - 1)) by (nonlinear_arith)
            requires
                0 <= a <= b - 1,
        ;
    } else if b < a {
        assert(b * b <= (a - 1) * (a - 1)) by (nonlinear_arith)
            requires
                0 <= b <= a - 1,
        ;
    }
}

/// The number of windows in the grid rows `rows`.
pub open spec fn cells_total(t: Seq<ContainerView>, rows: Seq<usize>) -> int
    decreases rows.len(),
{
    if rows.len() == 0 {
        0
    } else {
        cells_total(t, rows.drop_last()) + t[rows.last() as int].children.len()
    }
}

/// Attaching `c` under `p` at `idx`, or the refusal when `c` is attached.
pub open spec fn spec_try_attach(t: Seq<ContainerView>, c: usize, p: usize, idx: Option<usize>) -> (Seq<ContainerView>, Result<(), TreeError>) {
    if is_detached(t, c) {
        (spec_attach(t, c, p, idx), Ok(()))
    } else {
        (t, Err(TreeError::AlreadyAttached))
    }
}

pub open spec fn placed(r: (Seq<ContainerView>, Result<(), TreeError>), nw: usize) -> (Seq<ContainerView>, Result<usize, WmError>) {
    match r.1 {
        Ok(()) => (r.0, Ok(nw)),
        Err(e) => (r.0, Err(WmError::Tree(e))),
    }
}

pub open spec fn cascaded(r: (Seq<ContainerView>, Result<(), WmError>), nw: usize) -> (Seq<ContainerView>, Result<usize, WmError>) {
    match r.1 {
        Ok(()) => (r.0, Ok(nw)),
        Err(e) => (r.0, Err(e)),
    }
}

/// The first of `rows` from index `i` on, other than row `tr`, with at
/// most `tc` children.
pub open spec fn first_other_row_fitting(t: Seq<ContainerView>, rows: Seq<usize>, tr: int, tc: int, i: int) -> Option<int>
    decreases rows.len() - i,
{
    if i < 0 || i >= rows.len() {
        None
    } else if i != tr && t[rows[i] as int].children.len() <= tc {
        Some(i)
    } else {
        first_other_row_fitting(t, rows, tr, tc, i + 1)
    }
}

/// Starting a grid in workspace `ws` from its first child `fc`: a vertical
/// split (the rows) goes to the front of the workspace, holding a
/// horizontal split (the first row) with `fc` and the new window `nw`.
pub open spec fn spec_start_grid(t0: Seq<ContainerView>, ws: usize, fc: usize, nw: usize) -> (Seq<ContainerView>, Result<usize, WmError>) {
    let main = t0.len() as usize;
    let t1 = t0.push(new_split(TilingDirection::Vertical));
    let row = t1.len() as usize;
    let t2 = t1.push(new_split(TilingDirection::Horizontal));
    match detach_error(t2, fc) {
        Some(e) => (t2, Err(WmError::Tree(e))),
        None => {
            let t3 = spec_detach(t2, fc);
            let r4 = spec_try_attach(t3, main, ws, Some(0));
            if r4.1 is Err {
                placed(r4, nw)
            } else {
                let r5 = spec_try_attach(r4.0, row, main, Some(0));
                if r5.1 is Err {
                    placed(r5, nw)
                } else {
                    let r6 = spec_try_attach(r5.0, fc, row, Some(0));
                    if r6.1 is Err {
                        placed(r6, nw)
                    } else {
                        placed(spec_try_attach(r6.0, nw, row, Some(1)), nw)
                    }
                }
            }
        },
    }
}

/// Adding new window `nw` to the grid whose rows are the children of
/// `main`, next to `target`, with `cols` columns.
pub open spec fn spec_grow_grid(t0: Seq<ContainerView>, main: usize, target: usize, nw: usize, cols: int) -> (Seq<ContainerView>, Result<usize, WmError>) {
    let rows = t0[main as int].children;
    match find_in_rows(t0, rows, target, 0) {
        None => (t0, Err(WmError::TargetNotFound)),
        Some(pos) => {
            let tr = pos.0 as int;
            let tc = pos.1 as int;
            let cnt = t0[rows[tr] as int].children.len();
            if cnt < cols {
                placed(spec_try_attach(t0, nw, rows[tr], Some((tc + 1) as usize)), nw)
            } else if tc == cnt - 1 {
                if tr > 0 && t0[rows[tr - 1] as int].children.len() <= tc {
                    placed(spec_try_attach(t0, nw, rows[tr - 1], Some(tc as usize)), nw)
                } else if tr + 1 < rows.len() {
                    if t0[rows[tr + 1] as int].children.len() <= tc {
                        placed(spec_try_attach(t0, nw, rows[tr + 1], Some(tc as usize)), nw)
                    } else {
                        cascaded(spec_cascade(t0, main, nw, tr + 1, tc, cols, cascade_fuel(t0)), nw)
                    }
                } else {
                    match first_other_row_fitting(t0, rows, tr, tc, 0) {
                        Some(i) => placed(spec_try_attach(t0, nw, rows[i], Some(tc as usize)), nw),
                        None => match first_row_with_space(t0, rows, cols, 0) {
                            Some(i) => placed(spec_try_attach(t0, nw, rows[i], None), nw),
                            None => {
                                let nr = t0.len() as usize;
                                let r = spec_try_attach(t0.push(new_split(TilingDirection::Horizontal)), nr, main, Some((tr + 1) as usize));
                                if r.1 is Err {
                                    placed(r, nw)
                                } else {
                                    placed(spec_try_attach(r.0, nw, nr, Some(tc as usize)), nw)
                                }
                            },
                        },
                    }
                }
            } else {
                cascaded(spec_cascade(t0, main, nw, tr, tc + 1, cols, cascade_fuel(t0)), nw)
            }
        },
    }
}

/// Adding a new tiling window to grid workspace `ws`, next to `target`:
/// an empty workspace takes it directly; a workspace that is not a grid
/// yet becomes one (see [`spec_start_grid`]); otherwise the grid grows
/// (see [`spec_grow_grid`]) with columns for all its windows (see
/// [`calculate_grid_dimensions`]). Returns the new window.
pub open spec fn spec_add_grid_window(t: Seq<ContainerView>, ws: usize, target: usize) -> (Seq<ContainerView>, Result<usize, WmError>) {
    let nw = t.len() as usize;
    let t0 = t.push(new_window(ContainerKind::TilingWindow));
    let n = t0[ws as int].children.len();
    if n == 0 {
        placed(spec_try_attach(t0, nw, ws, Some(0)), nw)
    } else {
        let fc = t0[ws as int].children[0];
        if t0[fc as int].kind.is_window() || (n == 1 && !t0[fc as int].kind.is_direction_container()) {
            spec_start_grid(t0, ws, fc, nw)
        } else {
            spec_grow_grid(t0, fc, target, nw, ceil_sqrt(1 + cells_total(t0, t0[fc as int].children)))
        }
    }
}

/// The first windows of a grid: added to an empty workspace, the new
/// window (container `t.len()`) becomes its only child; added to a
/// workspace whose first child `fc` is a window, the workspace gets a new
/// vertical split (container `t.len() + 1`) in front, whose only row, a new
/// horizontal split (container `t.len() + 2`), holds `fc` and then the new
/// window.
pub proof fn first_grid_windows_shape(t: Seq<ContainerView>, ws: usize, target: usize)
    requires
        tree_wf(t),
        t.len() + 3 < usize::MAX,
        ws < t.len(),
        t[ws as int].kind == ContainerKind::Workspace,
        t[ws as int].children.len() == 0 || t[t[ws as int].children[0] as int].kind.is_window(),
    ensures
        ({
            let r = spec_add_grid_window(t, ws, target);
            let nw = t.len() as usize;
            let main = (t.len() + 1) as usize;
            let row = (t.len() + 2) as usize;
            &&& r.1 == Ok::<usize, WmError>(nw)
            &&& r.0[nw as int].kind == ContainerKind::TilingWindow
            &&& t[ws as int].children.len() == 0 ==> r.0[ws as int].children == seq![nw]
            &&& t[ws as int].children.len() > 0 ==> {
                &&& r.0[ws as int].children[0] == main
                &&& r.0[main as int].children == seq![row]
                &&& r.0[main as int].direction == TilingDirection::Vertical
                &&& r.0[row as int].children == seq![t[ws as int].children[0], nw]
                &&& r.0[row as int].direction == TilingDirection::Horizontal
            }
        }),
{
    let nw = t.len() as usize;
    let t0 = t.push(new_window(ContainerKind::TilingWindow));
    crate::tree::lemma_push_detached_wf(t, new_window(ContainerKind::TilingWindow));
    assert(t0[ws as int] == t[ws as int]);
    if t[ws as int].children.len() > 0 {
        let fc = t[ws as int].children[0];
        assert(links_ok(t, ws as int));
        assert(fc < t.len() && t[fc as int].parent == Some(ws));
        assert(t0[fc as int] == t[fc as int]);
        let main = t0.len() as usize;
        let t1 = t0.push(new_split(TilingDirection::Vertical));
        let row = t1.len() as usize;
        let t2 = t1.push(new_split(TilingDirection::Horizontal));
        assert(t2[fc as int] == t[fc as int] && t2[ws as int] == t[ws as int]);
        assert(!crate::tree::detach_flattens_parent(t2, fc));
        assert(detach_error(t2, fc) is None);
        let t3 = spec_detach(t2, fc);
        assert(t3[fc as int].parent is None);
        assert(t3[main as int] == t2[main as int] && t3[row as int] == t2[row as int] && t3[nw as int] == t2[nw as int]);
        let t4 = spec_attach(t3, main, ws, Some(0));
        assert(t4[row as int] == t3[row as int] && t4[fc as int] == t3[fc as int] && t4[nw as int] == t3[nw as int]);
        let t5 = spec_attach(t4, row, main, Some(0));
        assert(t5[fc as int] == t4[fc as int] && t5[nw as int] == t4[nw as int] && t5[ws as int] == t4[ws as int]);
        let t6 = spec_attach(t5, fc, row, Some(0));
        assert(t6[nw as int] == t5[nw as int] && t6[ws as int] == t5[ws as int] && t6[main as int] == t5[main as int]);
        let t7 = spec_attach(t6, nw, row, Some(1));
        assert(t7[ws as int] == t6[ws as int] && t7[main as int] == t6[main as int]);
        assert(t5[main as int].children =~= seq![row]);
        assert(t6[row as int].children =~= seq![fc]);
        assert(t7[row as int].children =~= seq![fc, nw]);
        assert(t4[ws as int].children[0] == main);
        assert(spec_add_grid_window(t, ws, target) == (t7, Ok::<usize, WmError>(nw)));
    } else {
        assert(spec_attach(t0, nw, ws, Some(0))[ws as int].children =~= seq![nw]);
    }
}

fn try_attach(tree: &mut ContainerTree, c: usize, p: usize, idx: Option<usize>) -> (res: Result<(), TreeError>)
    requires
        tree_wf(old(tree)@),
        c < old(tree)@.len(),
        p < old(tree)@.len(),
    ensures
        tree_wf(final(tree)@),
        final(tree)@.len() == old(tree)@.len(),
        (final(tree)@, res) == spec_try_attach(old(tree)@, c, p, idx),
{
    let r = attach_container(tree, c, p, idx);
    match r {
        Ok(()) => Ok(()),
        Err(e) => {
            assert(e == TreeError::AlreadyAttached);
            Err(TreeError::AlreadyAttached)
        },
    }
}

fn new_container(tree: &mut ContainerTree, kind: ContainerKind, direction: TilingDirection) -> (id: usize)
    requires
        tree_wf(old(tree)@),
        old(tree)@.len() < usize::MAX,
    ensures
        id == old(tree)@.len(),
        tree_wf(final(tree)@),
        final(tree)@ == old(tree)@.push(ContainerView {
            kind,
            parent: None,
            children: Seq::empty(),
            focus: Seq::empty(),
            direction,
            layout: TilingLayout::Tiling,
        }),
{
    tree.add_container(kind, direction, TilingLayout::Tiling)
}

fn start_grid(tree: &mut ContainerTree, ws: usize, fc: usize, nw: usize) -> (res: Result<usize, WmError>)
    requires
        tree_wf(old(tree)@),
        old(tree)@.len() + 2 < usize::MAX,
        ws < old(tree)@.len(),
        fc < old(tree)@.len(),
        nw < old(tree)@.len(),
    ensures
        tree_wf(final(tree)@),
        (final(tree)@, res) == spec_start_grid(old(tree)@, ws, fc, nw),
{
    let ghost t0 = tree@;
    let main = new_container(tree, ContainerKind::Split, TilingDirection::Vertical);
    proof {
        assert(tree@ =~= t0.push(new_split(TilingDirection::Vertical)));
    }
    let ghost t1 = tree@;
    let row = new_container(tree, ContainerKind::Split, TilingDirection::Horizontal);
    proof {
        assert(tree@ =~= t1.push(new_split(TilingDirection::Horizontal)));
    }
    match detach_container(tree, fc) {
        Err(e) => { return Err(WmError::Tree(e)); },
        Ok(()) => {},
    }
    match try_attach(tree, main, ws, Some(0)) {
        Err(e) => { return Err(WmError::Tree(e)); },
        Ok(()) => {},
    }
    match try_attach(tree, row, main, Some(0)) {
        Err(e) => { return Err(WmError::Tree(e)); },
        Ok(()) => {},
    }
    match try_attach(tree, fc, row, Some(0)) {
        Err(e) => { return Err(WmError::Tree(e)); },
        Ok(()) => {},
    }
    match try_attach(tree, nw, row, Some(1)) {
        Err(e) => Err(WmError::Tree(e)),
        Ok(()) => Ok(nw),
    }
}


fn placed_result(r: Result<(), TreeError>, nw: usize) -> (res: Result<usize, WmError>)
    ensures
        res == (match r {
            Ok(()) => Ok::<usize, WmError>(nw),
            Err(e) => Err::<usize, WmError>(WmError::Tree(e)),
        }),
{
    match r {
        Ok(()) => Ok(nw),
        Err(e) => Err(WmError::Tree(e)),
    }
}

fn cascaded_result(r: Result<(), WmError>, nw: usize) -> (res: Result<usize, WmError>)
    ensures
        res == (match r {
            Ok(()) => Ok::<usize, WmError>(nw),
            Err(e) => Err::<usize, WmError>(e),
        }),
{
    match r {
        Ok(()) => Ok(nw),
        Err(e) => Err(e),
    }
}

fn other_row_fitting(tree: &ContainerTree, main: usize, tr: usize, tc: usize) -> (res: Option<usize>)
    requires
        tree_wf(tree@),
        main < tree@.len(),
    ensures
        match first_other_row_fitting(tree@, tree@[main as int].children, tr as int, tc as int, 0) {
            Some(i) => 0 <= i < tree@[main as int].children.len() && res == Some(i as usize),
            None => res is None,
        },
{
    let ghost t = tree@;
    let n = tree.child_count(main);
    let mut i: usize = 0;
    proof {
        assert(links_ok(t, main as int));
    }
    while i < n
        invariant
            t == tree@,
            tree_wf(t),
            main < t.len(),
            links_ok(t, main as int),
            n == t[main as int].children.len(),
            i <= n,
            first_other_row_fitting(t, t[main as int].children, tr as int, tc as int, 0)
                == first_other_row_fitting(t, t[main as int].children, tr as int, tc as int, i as int),
        decreases n - i,
    {
        let row = tree.child_at(main, i);
        if i != tr && tree.child_count(row) <= tc {
            return Some(i);
        }
        i = i + 1;
    }
    None
}

fn grow_grid(tree: &mut ContainerTree, main: usize, target: usize, nw: usize, cols: usize) -> (res: Result<usize, WmError>)
    requires
        tree_wf(old(tree)@),
        old(tree)@.len() < usize::MAX,
        main < old(tree)@.len(),
        nw < old(tree)@.len(),
        cols >= 1,
    ensures
        tree_wf(final(tree)@),
        (final(tree)@, res) == spec_grow_grid(old(tree)@, main, target, nw, cols as int),
{
    let ghost t0 = tree@;
    let (tr, tc) = match find_window_position(tree, main, target) {
        Err(e) => { return Err(e); },
        Ok(p) => p,
    };
    proof {
        assert(links_ok(t0, main as int));
    }
    let rows_n = tree.child_count(main);
    let cur = tree.child_at(main, tr);
    let cnt = tree.child_count(cur);
    if cnt < cols {
        return placed_result(try_attach(tree, nw, cur, Some(tc + 1)), nw);
    }
    if tc == cnt - 1 {
        if tr > 0 {
            let above = tree.child_at(main, tr - 1);
            if tree.child_count(above) <= tc {
                return placed_result(try_attach(tree, nw, above, Some(tc)), nw);
            }
        }
        if tr + 1 < rows_n {
            let below = tree.child_at(main, tr + 1);
            if tree.child_count(below) <= tc {
                return placed_result(try_attach(tree, nw, below, Some(tc)), nw);
            }
            return cascaded_result(cascade_from_position(tree, main, nw, tr + 1, tc, cols), nw);
        }
        match other_row_fitting(tree, main, tr, tc) {
            Some(i) => {
                let row = tree.child_at(main, i);
                return placed_result(try_attach(tree, nw, row, Some(tc)), nw);
            },
            None => {},
        }
        match row_with_space(tree, main, cols) {
            Some(i) => {
                let row = tree.child_at(main, i);
                return placed_result(try_attach(tree, nw, row, None), nw);
            },
            None => {},
        }
        let nr = new_container(tree, ContainerKind::Split, TilingDirection::Horizontal);
        proof {
            assert(tree@ =~= t0.push(new_split(TilingDirection::Horizontal)));
        }
        match try_attach(tree, nr, main, Some(tr + 1)) {
            Err(e) => { return Err(WmError::Tree(e)); },
            Ok(()) => {},
        }
        return placed_result(try_attach(tree, nw, nr, Some(tc)), nw);
    }
    cascaded_result(cascade_from_position(tree, main, nw, tr, tc + 1, cols), nw)
}

proof fn lemma_cells_prefix(t: Seq<ContainerView>, rows: Seq<usize>, i: int)
    requires
        0 <= i <= rows.len(),
    ensures
        cells_total(t, rows.take(i)) <= cells_total(t, rows),
    decreases rows.len(),
{
    if i == rows.len() {
        assert(rows.take(i) =~= rows);
    } else {
        let d = rows.drop_last();
        assert(d.take(i) =~= rows.take(i));
        lemma_cells_prefix(t, d, i);
    }
}

/// Adds a new tiling window to grid workspace `ws` next to `target` (see
/// [`spec_add_grid_window`]).
pub fn add_grid_window(tree: &mut ContainerTree, ws: usize, target: usize) -> (res: Result<usize, WmError>)
    requires
        tree_wf(old(tree)@),
        old(tree)@.len() + 3 < usize::MAX,
        ws < old(tree)@.len(),
        old(tree)@[ws as int].children.len() > 0 ==>
            1 + cells_total(old(tree)@, old(tree)@[old(tree)@[ws as int].children[0] as int].children) <= usize::MAX,
    ensures
        tree_wf(final(tree)@),
        (final(tree)@, res) == spec_add_grid_window(old(tree)@, ws, target),
{
    let ghost t = tree@;
    let nw = tree.add_container(ContainerKind::TilingWindow, TilingDirection::Horizontal, TilingLayout::Tiling);
    proof {
        assert(tree@ =~= t.push(new_window(ContainerKind::TilingWindow)));
    }
    let ghost t0 = tree@;
    let n = tree.child_count(ws);
    if n == 0 {
        return placed_result(try_attach(tree, nw, ws, Some(0)), nw);
    }
    proof {
        assert(links_ok(t0, ws as int));
    }
    let fc = tree.child_at(ws, 0);
    let k = tree.kind(fc);
    let is_window = k == ContainerKind::TilingWindow || k == ContainerKind::NonTilingWindow;
    let is_direction = k == ContainerKind::Workspace || k == ContainerKind::Split;
    if is_window || (n == 1 && !is_direction) {
        return start_grid(tree, ws, fc, nw);
    }
    let ghost rows = t0[fc as int].children;
    proof {
        assert(t0[ws as int].children[0] == t[ws as int].children[0]);
        assert(links_ok(t0, fc as int));
        assert forall|r: int| 0 <= r < rows.len() implies (#[trigger] t0[rows[r] as int]) == t[rows[r] as int] by {
            assert(rows[r] < t0.len());
            assert(rows[r] != nw);
        }
        assert(cells_total(t0, rows) == cells_total(t, rows)) by {
            lemma_cells_same(t, t0, rows);
        }
    }
    let rn = tree.child_count(fc);
    let mut acc: u128 = 0;
    let mut i: usize = 0;
    while i < rn
        invariant
            t0 == tree@,
            tree_wf(t0),
            fc < t0.len(),
            links_ok(t0, fc as int),
            rows == t0[fc as int].children,
            rn == rows.len(),
            1 + cells_total(t0, rows) <= usize::MAX,
            i <= rn,
            acc == cells_total(t0, rows.take(i as int)),
        decreases rn - i,
    {
        let row = tree.child_at(fc, i);
        let c = tree.child_count(row);
        proof {
            assert(rows.take(i as int + 1).drop_last() =~= rows.take(i as int));
            assert(rows.take(i as int + 1).last() == row);
            lemma_cells_prefix(t0, rows, i as int + 1);
        }
        acc = acc + c as u128;
        i = i + 1;
    }
    proof {
        assert(rows.take(rn as int) =~= rows);
    }
    let total = 1 + acc as usize;
    let (_, cols) = calculate_grid_dimensions(total);
    proof {
        let s = ceil_sqrt(total as int);
        assert(is_ceil_sqrt(cols as int, total as int));
        assert(is_ceil_sqrt(s, total as int));
        lemma_ceil_sqrt_unique(s, cols as int, total as int);
    }
    grow_grid(tree, fc, target, nw, cols)
}

proof fn lemma_cells_same(t: Seq<ContainerView>, u: Seq<ContainerView>, rows: Seq<usize>)
    requires
        forall|r: int| 0 <= r < rows.len() ==> (#[trigger] u[rows[r] as int]) == t[rows[r] as int],
    ensures
        cells_total(u, rows) == cells_total(t, rows),
    decreases rows.len(),
{
    if rows.len() > 0 {
        let d = rows.drop_last();
        assert forall|r: int| 0 <= r < d.len() implies (#[trigger] u[d[r] as int]) == t[d[r] as int] by {
            assert(d[r] == rows[r]);
        }
        lemma_cells_same(t, u, d);
        assert(u[rows.last() as int] == t[rows.last() as int]);
    }
}

} // verus!
