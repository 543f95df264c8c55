use vstd::prelude::*;
use crate::common::ContainerKind;
use crate::error::WmError;
use crate::app_command::{join_words, spec_join_words, string_views};
use crate::tree::{
    ContainerTree, ContainerView, KindClass, tree_wf, links_ok, focus_ok, workspace_of, spec_shift_to_index,
    lemma_shift_contains,
};
use crate::sync::{
    all_windows, spec_focused_container, focused_container, all_descendants, descendants, leaf_order, leaf_list,
};

verus! {

#[verifier::external_type_specification]
#[verifier::external_body]
pub struct ExRegex(regex::Regex);

#[verifier::external_type_specification]
#[verifier::external_body]
pub struct ExRegexError(regex::Error);

/// Whether `regex::Regex::new` accepts `pattern` (a valid pattern within
/// the default size limit).
pub uninterp spec fn regex_compiles(pattern: Seq<char>) -> bool;

/// Whether the regex compiled from `pattern` matches anywhere in
/// `haystack` (`regex::Regex::is_match`).
pub uninterp spec fn regex_is_match(pattern: Seq<char>, haystack: Seq<char>) -> bool;

/// A compiled title pattern, with the text it was compiled from.
pub struct TitlePattern {
    source: String,
    regex: regex::Regex,
}

impl TitlePattern {
    /// The text the pattern was compiled from.
    pub closed spec fn source(&self) -> Seq<char> {
        self.source@
    }
}

/// Compiles `pattern` with `regex::Regex::new`. The contract claims what
/// the crate documents: an error exactly when the pattern is refused (an
/// invalid pattern, or one over the default size limit), and otherwise a
/// regex that keeps `pattern` as its source.
#[verifier::external_body]
fn compile_pattern(pattern: &String) -> (res: Result<TitlePattern, regex::Error>)
    ensures
        res is Ok == regex_compiles(pattern@),
        res matches Ok(p) ==> p.source() == pattern@,
{
    match regex::Regex::new(pattern) {
        Ok(regex) => Ok(TitlePattern { source: pattern.clone(), regex }),
        Err(e) => Err(e),
    }
}

/// Calls `regex::Regex::is_match` on the compiled pattern: whether it
/// matches anywhere in `haystack`, a function of the pattern's source and
/// the haystack alone.
#[verifier::external_body]
fn pattern_matches(p: &TitlePattern, haystack: &String) -> (res: bool)
    ensures
        res == regex_is_match(p.source(), haystack@),
{
    p.regex.is_match(haystack)
}

/// The first of `ws` whose title matches `pattern`.
pub open spec fn first_match(titles: Seq<String>, pattern: Seq<char>, ws: Seq<usize>) -> Option<usize>
    decreases ws.len(),
{
    if ws.len() == 0 {
        None
    } else if regex_is_match(pattern, titles[ws[0] as int]@) {
        Some(ws[0])
    } else {
        first_match(titles, pattern, ws.drop_first())
    }
}

/// What focusing a window by title found: the window, and the workspace to
/// switch to first when the window is on another workspace than the
/// focused container.
#[derive(Clone, Copy, Debug, PartialEq, Eq, Structural)]
pub struct FocusTarget {
    pub window: usize,
    pub switch_to_workspace: Option<usize>,
}

/// Focusing a window by title: the words are joined by spaces into a
/// pattern; an invalid pattern is refused; the first window (below
/// `root`, depth first) whose title matches is the target, if any.
pub open spec fn spec_focus_window(
    t: Seq<ContainerView>,
    root: usize,
    titles: Seq<String>,
    words: Seq<String>,
) -> Result<Option<FocusTarget>, WmError> {
    let pattern = spec_join_words(string_views(words));
    if !regex_compiles(pattern) {
        Err(WmError::InvalidPattern)
    } else {
        match first_match(titles, pattern, all_windows(t, root)) {
            None => Ok(None),
            Some(w) => match workspace_of(t, w) {
                None => Err(WmError::NoWorkspace),
                Some(wws) => match spec_focused_container(t, root) {
                    None => Err(WmError::NoWorkspace),
                    Some(f) => match workspace_of(t, f) {
                        None => Err(WmError::NoWorkspace),
                        Some(cws) => Ok(Some(FocusTarget {
                            window: w,
                            switch_to_workspace: if wws != cws { Some(wws) } else { None },
                        })),
                    },
                },
            },
        }
    }
}

/// Finds the window to focus by title (see [`spec_focus_window`]); the
/// caller switches workspace when asked and then focuses the window with
/// [`set_focused_descendant`].
pub fn focus_window(tree: &ContainerTree, root: usize, titles: &Vec<String>, words: &Vec<String>) -> (res: Result<Option<FocusTarget>, WmError>)
    requires
        tree_wf(tree@),
        root < tree@.len(),
        titles@.len() == tree@.len(),
    ensures
        res == spec_focus_window(tree@, root, titles@, words@),
{
    let ghost t = tree@;
    let pattern_text = join_words(words);
    let pattern = match compile_pattern(&pattern_text) {
        Err(_) => { return Err(WmError::InvalidPattern); },
        Ok(p) => p,
    };
    let d = all_descendants(tree, root);
    let ghost wpred = |x: usize| t[x as int].kind.is_window();
    let mut windows: Vec<usize> = Vec::new();
    let mut i: usize = 0;
    proof {
        assert(d@.take(0).filter(wpred) =~= Seq::<usize>::empty());
    }
    while i < d.len()
        invariant
            t == tree@,
            d@ == descendants(t, root),
            forall|q: int| 0 <= q < d@.len() ==> (#[trigger] d@[q]) < t.len(),
            wpred == (|x: usize| t[x as int].kind.is_window()),
            i <= d.len(),
            windows@ == d@.take(i as int).filter(wpred),
            forall|q: int| 0 <= q < windows@.len() ==> (#[trigger] windows@[q]) < t.len(),
        decreases d.len() - i,
    {
        let x = d[i];
        proof {
            assert(d@.take(i as int).push(x) =~= d@.take(i as int + 1));
            d@.take(i as int).lemma_filter_push(x, wpred);
        }
        let k = tree.kind(x);
        if k == ContainerKind::TilingWindow || k == ContainerKind::NonTilingWindow {
            windows.push(x);
        }
        i = i + 1;
    }
    proof {
        assert(d@.take(d.len() as int) =~= d@);
        assert(windows@ == all_windows(t, root));
        assert(windows@.skip(0) =~= windows@);
    }
    let mut j: usize = 0;
    let mut found: Option<usize> = None;
    while j < windows.len()
        invariant
            t == tree@,
            titles@.len() == t.len(),
            forall|q: int| 0 <= q < windows@.len() ==> (#[trigger] windows@[q]) < t.len(),
            pattern.source() == pattern_text@,
            j <= windows.len(),
            found is None ==> first_match(titles@, pattern_text@, windows@) == first_match(titles@, pattern_text@, windows@.skip(j as int)),
            found matches Some(w) ==> first_match(titles@, pattern_text@, windows@) == Some(w) && w < t.len(),
        decreases windows.len() - j,
    {
        if found.is_none() {
            let w = windows[j];
            proof {
                assert(windows@.skip(j as int).drop_first() =~= windows@.skip(j as int + 1));
                assert(windows@.skip(j as int)[0] == w);
            }
            if pattern_matches(&pattern, &titles[w]) {
                found = Some(w);
            }
        }
        j = j + 1;
    }
    proof {
        if found is None {
            assert(windows@.skip(windows.len() as int) =~= Seq::<usize>::empty());
        }
    }
    let w = match found {
        None => { return Ok(None); },
        Some(w) => w,
    };
    let wws = match tree.nearest(w, KindClass::Workspace) {
        None => { return Err(WmError::NoWorkspace); },
        Some(x) => x,
    };
    let f = match focused_container(tree, root) {
        None => { return Err(WmError::NoWorkspace); },
        Some(f) => f,
    };
    let cws = match tree.nearest(f, KindClass::Workspace) {
        None => { return Err(WmError::NoWorkspace); },
        Some(x) => x,
    };
    Ok(Some(FocusTarget { window: w, switch_to_workspace: if wws != cws { Some(wws) } else { None } }))
}

/// Making `c` the most recently focused container of each of its
/// ancestors in turn, up to the root or up to `end` (whose own place in its
/// parent's focus order is left alone); `fuel` bounds the climb.
pub open spec fn spec_set_focused_descendant(t: Seq<ContainerView>, c: usize, end: Option<usize>, fuel: nat) -> Seq<ContainerView>
    decreases fuel,
{
    if fuel == 0 {
        t
    } else {
        match t[c as int].parent {
            None => t,
            Some(p) => if end == Some(c) {
                t
            } else {
                let t1 = t.update(p as int, ContainerView { focus: spec_shift_to_index(t[p as int].focus, 0, c), ..t[p as int] });
                spec_set_focused_descendant(t1, p, end, (fuel - 1) as nat)
            },
        }
    }
}

/// Focuses `c` in each of its ancestors (see
/// [`spec_set_focused_descendant`], climbing at most as many steps as
/// there are containers).
pub fn set_focused_descendant(tree: &mut ContainerTree, c: usize, end: Option<usize>)
    requires
        tree_wf(old(tree)@),
        c < old(tree)@.len(),
    ensures
        tree_wf(final(tree)@),
        final(tree)@.len() == old(tree)@.len(),
        final(tree)@ == spec_set_focused_descendant(old(tree)@, c, end, old(tree)@.len() as nat),
{
    let ghost t = old(tree)@;
    let mut target = c;
    let mut fuel = tree.len();
    loop
        invariant
            t == old(tree)@,
            tree_wf(tree@),
            tree@.len() == t.len(),
            target < t.len(),
            spec_set_focused_descendant(t, c, end, t.len() as nat) == spec_set_focused_descendant(tree@, target, end, fuel as nat),
        decreases fuel,
    {
        if fuel == 0 {
            return;
        }
        let p = match tree.parent(target) {
            None => { return; },
            Some(p) => p,
        };
        proof {
            assert(links_ok(tree@, target as int));
        }
        if end == Some(target) {
            return;
        }
        tree.shift_focus_to_index(p, 0, target);
        target = p;
        fuel = fuel - 1;
    }
}


/// The ancestor of `c` `n` levels up (`c` itself at 0).
pub open spec fn ancestor_at(t: Seq<ContainerView>, c: usize, n: nat) -> Option<usize>
    decreases n,
{
    if n == 0 {
        Some(c)
    } else {
        match t[c as int].parent {
            None => None,
            Some(p) => ancestor_at(t, p, (n - 1) as nat),
        }
    }
}

proof fn lemma_ancestor_step(t: Seq<ContainerView>, c: usize, n: nat)
    requires
        tree_wf(t),
        c < t.len(),
    ensures
        ancestor_at(t, c, n + 1) == (match ancestor_at(t, c, n) {
            Some(a) => t[a as int].parent,
            None => None,
        }),
        ancestor_at(t, c, n) matches Some(a) ==> a < t.len(),
    decreases n,
{
    assert(links_ok(t, c as int));
    match t[c as int].parent {
        None => {
            assert(ancestor_at(t, c, n + 1) is None);
        },
        Some(p) => {
            assert(ancestor_at(t, c, n + 1) == ancestor_at(t, p, n));
            if n > 0 {
                assert(ancestor_at(t, c, n) == ancestor_at(t, p, (n - 1) as nat));
                lemma_ancestor_step(t, p, (n - 1) as nat);
                assert(((n - 1) as nat + 1) as nat == n);
            } else {
                assert(ancestor_at(t, p, 0) == Some(p));
            }
        },
    }
}

proof fn lemma_ancestor_add(t: Seq<ContainerView>, c: usize, m: nat, n: nat)
    requires
        tree_wf(t),
        c < t.len(),
    ensures
        ancestor_at(t, c, m + n) == (match ancestor_at(t, c, m) {
            Some(b) => ancestor_at(t, b, n),
            None => None,
        }),
    decreases m,
{
    assert(links_ok(t, c as int));
    if m > 0 {
        match t[c as int].parent {
            None => {},
            Some(p) => {
                lemma_ancestor_add(t, p, (m - 1) as nat, n);
                assert((m + n - 1) as nat == ((m - 1) as nat + n) as nat);
            },
        }
    }
}

/// Distinct values below `n` are at most `n` in number.
proof fn lemma_distinct_below(p: Seq<usize>, n: nat)
    requires
        p.no_duplicates(),
        forall|k: int| 0 <= k < p.len() ==> (#[trigger] p[k]) < n,
    ensures
        p.len() <= n,
    decreases n,
{
    if n == 0 {
        if p.len() > 0 {
            assert(p[0] < n);
        }
    } else {
        let top = (n - 1) as usize;
        if p.contains(top) {
            let j = choose|j: int| 0 <= j < p.len() && p[j] == top;
            let q = p.remove(j);
            assert forall|k: int| 0 <= k < q.len() implies (#[trigger] q[k]) < n - 1 by {
                let pk = if k < j { k } else { k + 1 };
                assert(q[k] == p[pk]);
                assert(p[pk] != p[j]);
            }
            assert(q.no_duplicates()) by {
                assert forall|a: int, b: int| 0 <= a < q.len() && 0 <= b < q.len() && a != b implies q[a] != q[b] by {
                    let pa = if a < j { a } else { a + 1 };
                    let pb = if b < j { b } else { b + 1 };
                    assert(q[a] == p[pa] && q[b] == p[pb]);
                }
            }
            lemma_distinct_below(q, (n - 1) as nat);
        } else {
            assert forall|k: int| 0 <= k < p.len() implies (#[trigger] p[k]) < n - 1 by {
                assert(p[k] != top);
            }
            lemma_distinct_below(p, (n - 1) as nat);
        }
    }
}

/// The path from `x` up to `root`, `d` levels up: its containers, `x`
/// first.
pub open spec fn path_up(t: Seq<ContainerView>, x: usize, d: nat) -> Seq<usize> {
    Seq::new(d + 1, |i: int| ancestor_at(t, x, i as nat)->0)
}

/// The path from leaf `x` to a root `d` levels up has distinct containers,
/// each the parent of the one before, and fewer than there are containers.
proof fn lemma_path_up(t: Seq<ContainerView>, x: usize, root: usize, d: nat)
    requires
        tree_wf(t),
        x < t.len(),
        ancestor_at(t, x, d) == Some(root),
        t[root as int].parent is None,
    ensures
        path_up(t, x, d).no_duplicates(),
        forall|i: int| 0 <= i <= d ==> (#[trigger] path_up(t, x, d)[i]) < t.len(),
        forall|i: int| #![trigger path_up(t, x, d)[i]] 0 <= i < d ==> t[path_up(t, x, d)[i] as int].parent == Some(path_up(t, x, d)[i + 1]),
        path_up(t, x, d)[0] == x,
        path_up(t, x, d)[d as int] == root,
        d + 1 <= t.len(),
{
    let path = path_up(t, x, d);
    assert forall|i: int| 0 <= i <= d implies (#[trigger] path[i]) < t.len()
        && ancestor_at(t, x, i as nat) == Some(path[i]) by {
        lemma_ancestor_add(t, x, i as nat, (d - i) as nat);
        assert((i as nat + (d - i) as nat) as nat == d);
        lemma_ancestor_step(t, x, i as nat);
    }
    assert forall|i: int| #![trigger path[i]] 0 <= i < d implies t[path[i] as int].parent == Some(path[i + 1]) by {
        lemma_ancestor_step(t, x, i as nat);
        assert(path[i + 1] == ancestor_at(t, x, (i + 1) as nat)->0);
        assert((i as nat + 1) as nat == (i + 1) as nat);
        assert(ancestor_at(t, x, (i + 1) as nat) is Some);
    }
    assert(path.no_duplicates()) by {
        assert forall|i: int, j: int| 0 <= i < path.len() && 0 <= j < path.len() && i != j implies path[i] != path[j] by {
            if path[i] == path[j] {
                let (lo, hi) = if i < j { (i, j) } else { (j, i) };
                let a = path[lo];
                lemma_ancestor_add(t, x, lo as nat, (d - lo) as nat);
                assert((lo as nat + (d - lo) as nat) as nat == d);
                lemma_ancestor_add(t, x, hi as nat, (d - lo) as nat);
                lemma_ancestor_add(t, x, d, (hi - lo) as nat);
                assert((hi as nat + (d - lo) as nat) as nat == (d + (hi - lo) as nat) as nat);
                assert(ancestor_at(t, root, (hi - lo) as nat) is None);
            }
        }
    }
    assert forall|k: int| 0 <= k < path.len() implies (#[trigger] path[k]) < t.len() as nat by {}
    lemma_distinct_below(path, t.len() as nat);
}

/// How focusing climbs the path: each container on it above position `i`
/// ends with the one below it first in its focus order; containers off
/// that part of the path keep their focus order, and no parent or child
/// list changes.
proof fn lemma_focus_climb(t0: Seq<ContainerView>, path: Seq<usize>, t: Seq<ContainerView>, i: int, fuel: nat)
    requires
        tree_wf(t0),
        tree_wf(t),
        t.len() == t0.len(),
        forall|b: int| 0 <= b < t.len() ==> (#[trigger] t[b]).parent == t0[b].parent && t[b].children == t0[b].children,
        path.no_duplicates(),
        path.len() >= 1,
        forall|k: int| 0 <= k < path.len() ==> (#[trigger] path[k]) < t.len(),
        forall|k: int| #![trigger path[k]] 0 <= k < path.len() - 1 ==> t0[path[k] as int].parent == Some(path[k + 1]),
        t0[path.last() as int].parent is None,
        0 <= i < path.len(),
        fuel >= path.len() - i,
    ensures
        spec_set_focused_descendant(t, path[i], None, fuel).len() == t.len(),
        forall|b: int| 0 <= b < t.len() ==> (#[trigger] spec_set_focused_descendant(t, path[i], None, fuel)[b]).parent == t0[b].parent
            && spec_set_focused_descendant(t, path[i], None, fuel)[b].children == t0[b].children,
        forall|j: int| i < j < path.len() ==> (#[trigger] spec_set_focused_descendant(t, path[i], None, fuel)[path[j] as int]).focus.len() > 0
            && spec_set_focused_descendant(t, path[i], None, fuel)[path[j] as int].focus[0] == path[j - 1],
        forall|b: int| 0 <= b < t.len() && (forall|j: int| i < j < path.len() ==> path[j] != b)
            ==> (#[trigger] spec_set_focused_descendant(t, path[i], None, fuel)[b]) == t[b],
    decreases path.len() - i,
{
    let c = path[i];
    if i == path.len() - 1 {
        assert(t[c as int].parent is None);
    } else {
        let p = path[i + 1];
        assert(t[c as int].parent == Some(p));
        let t1 = t.update(p as int, ContainerView { focus: spec_shift_to_index(t[p as int].focus, 0, c), ..t[p as int] });
        assert(links_ok(t0, c as int));
        assert(focus_ok(t, p as int));
        assert(t[p as int].focus.contains(c));
        lemma_shift_contains(t[p as int].focus, 0, c, c);
        assert forall|y: usize| t1[p as int].focus.contains(y) <==> t[p as int].focus.contains(y) by {
            lemma_shift_contains(t[p as int].focus, 0, c, y);
        }
        assert(tree_wf(t1)) by {
            assert forall|b: int| 0 <= b < t1.len() implies #[trigger] links_ok(t1, b) by {
                assert(links_ok(t, b));
                assert forall|k: int| #![trigger t1[b].children[k]] 0 <= k < t1[b].children.len() implies
                    t1[b].children[k] < t1.len() && t1[t1[b].children[k] as int].parent == Some(b as usize) by {
                    assert(t1[b].children[k] == t[b].children[k]);
                }
            }
            assert forall|b: int| 0 <= b < t1.len() implies #[trigger] focus_ok(t1, b) by {
                assert(focus_ok(t, b));
            }
        }
        let w = t[p as int].focus;
        let k = w.index_of(c);
        assert(spec_shift_to_index(w, 0, c)[0] == c) by {
            let r = w.remove(k);
            assert(spec_shift_to_index(w, 0, c) == r.insert(0, c));
        }
        lemma_focus_climb(t0, path, t1, i + 1, (fuel - 1) as nat);
        let r = spec_set_focused_descendant(t, c, None, fuel);
        assert(r == spec_set_focused_descendant(t1, p, None, (fuel - 1) as nat));
        assert(forall|j: int| i + 1 < j < path.len() ==> path[j] != p);
    }
}

proof fn lemma_leaf_list_first(t: Seq<ContainerView>, xs: Seq<usize>, f: nat)
    requires
        xs.len() > 0,
        leaf_order(t, xs[0], f).len() > 0,
    ensures
        leaf_list(t, xs, f).len() > 0,
        leaf_list(t, xs, f)[0] == leaf_order(t, xs[0], f)[0],
    decreases xs.len(),
{
    let a = leaf_list(t, xs.drop_last(), f);
    let b = leaf_order(t, xs.last(), f);
    assert(leaf_list(t, xs, f) == a + b);
    if xs.len() == 1 {
        assert(xs.drop_last() =~= Seq::<usize>::empty());
        assert(a =~= Seq::<usize>::empty());
        assert(xs.last() == xs[0]);
        assert(a + b =~= b);
    } else {
        assert(xs.drop_last()[0] == xs[0]);
        lemma_leaf_list_first(t, xs.drop_last(), f);
        assert((a + b)[0] == a[0]);
    }
}

/// Reading the focus order down the path: from the container at position
/// `k`, the first leaf is the path's leaf.
proof fn lemma_read_path(t: Seq<ContainerView>, path: Seq<usize>, k: int, f: nat)
    requires
        0 <= k < path.len(),
        f >= k + 1,
        t[path[0] as int].children.len() == 0,
        forall|j: int| 0 < j < path.len() ==> (#[trigger] t[path[j] as int]).focus.len() > 0 && t[path[j] as int].focus[0] == path[j - 1],
        forall|j: int| 0 < j < path.len() ==> (#[trigger] t[path[j] as int]).children.contains(path[j - 1]),
    ensures
        leaf_order(t, path[k], f).len() > 0,
        leaf_order(t, path[k], f)[0] == path[0],
    decreases k,
{
    if k > 0 {
        assert(t[path[k] as int].children.len() > 0) by {
            assert(t[path[k] as int].children.contains(path[k - 1]));
        }
        lemma_read_path(t, path, k - 1, (f - 1) as nat);
        lemma_leaf_list_first(t, t[path[k] as int].focus, (f - 1) as nat);
    }
}

/// Focusing a container without children below the root makes it the
/// focused container: the first window found by following each focus
/// order down from the root.
pub proof fn focusing_a_leaf_makes_it_focused(t: Seq<ContainerView>, x: usize, root: usize, d: nat)
    requires
        tree_wf(t),
        x < t.len(),
        root < t.len(),
        t[x as int].children.len() == 0,
        d >= 1,
        ancestor_at(t, x, d) == Some(root),
        t[root as int].parent is None,
    ensures
        spec_focused_container(spec_set_focused_descendant(t, x, None, t.len() as nat), root) == Some(x),
{
    lemma_path_up(t, x, root, d);
    let path = path_up(t, x, d);
    lemma_focus_climb(t, path, t, 0, t.len() as nat);
    let r = spec_set_focused_descendant(t, x, None, t.len() as nat);
    assert(path[0] == x);
    assert forall|j: int| 0 < j < path.len() implies (#[trigger] r[path[j] as int]).children.contains(path[j - 1]) by {
        assert(t[path[j - 1] as int].parent == Some(path[j]));
        assert(links_ok(t, path[j - 1] as int));
    }
    lemma_read_path(r, path, d - 1, (t.len() - 1) as nat);
    assert(path[d as int] == root);
    assert(r[root as int].focus[0] == path[d - 1]);
    lemma_leaf_list_first(r, r[root as int].focus, (t.len() - 1) as nat);
}

} // verus!
