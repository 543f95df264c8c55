use vstd::prelude::*;

verus! {

broadcast use vstd::seq_lib::group_seq_properties;

/// The predicate "is not `x`".
pub open spec fn ne_pred(x: usize) -> spec_fn(usize) -> bool {
    |y: usize| y != x
}

/// The predicate "does not occur in `xs`".
pub open spec fn not_in_pred(xs: Seq<usize>) -> spec_fn(usize) -> bool {
    |y: usize| !xs.contains(y)
}

/// The predicate "occurs in `xs`".
pub open spec fn in_pred(xs: Seq<usize>) -> spec_fn(usize) -> bool {
    |y: usize| xs.contains(y)
}

pub proof fn lemma_filter_contains_iff<A>(s: Seq<A>, pred: spec_fn(A) -> bool, y: A)
    ensures
        s.filter(pred).contains(y) <==> (s.contains(y) && pred(y)),
    decreases s.len(),
{
    reveal(Seq::filter);
    if s.len() > 0 {
        lemma_filter_contains_iff(s.drop_last(), pred, y);
        assert(s =~= s.drop_last().push(s.last()));
        if s.contains(y) && y != s.last() {
            let k = choose|k: int| 0 <= k < s.len() && s[k] == y;
            assert(s.drop_last()[k] == y);
        }
    }
}

pub proof fn lemma_filter_no_dup(s: Seq<usize>, pred: spec_fn(usize) -> bool)
    requires
        s.no_duplicates(),
    ensures
        s.filter(pred).no_duplicates(),
    decreases s.len(),
{
    reveal(Seq::filter);
    if s.len() > 0 {
        let d = s.drop_last();
        assert(d.no_duplicates());
        lemma_filter_no_dup(d, pred);
        if pred(s.last()) {
            lemma_filter_contains_iff(d, pred, s.last());
            assert(!d.contains(s.last()));
        }
    }
}

pub proof fn lemma_filter_keeps_all(s: Seq<usize>, pred: spec_fn(usize) -> bool)
    requires
        forall|k: int| 0 <= k < s.len() ==> pred(#[trigger] s[k]),
    ensures
        s.filter(pred) == s,
    decreases s.len(),
{
    reveal(Seq::filter);
    if s.len() > 0 {
        lemma_filter_keeps_all(s.drop_last(), pred);
        assert(s.drop_last().push(s.last()) =~= s);
    }
}

pub proof fn lemma_insert_contains(s: Seq<usize>, i: int, x: usize, y: usize)
    requires
        0 <= i <= s.len(),
    ensures
        s.insert(i, x).contains(y) <==> (y == x || s.contains(y)),
{
    let r = s.insert(i, x);
    s.insert_ensures(i, x);
    if s.contains(y) {
        let k = choose|k: int| 0 <= k < s.len() && s[k] == y;
        if k < i {
            assert(r[k] == y);
        } else {
            assert(r[k + 1] == y);
        }
    }
    if r.contains(y) && y != x {
        let k = choose|k: int| 0 <= k < r.len() && r[k] == y;
        if k < i {
            assert(s[k] == y);
        } else if k > i {
            assert(s[k - 1] == y);
        }
    }
}

pub proof fn lemma_insert_no_dup(s: Seq<usize>, i: int, x: usize)
    requires
        0 <= i <= s.len(),
        s.no_duplicates(),
        !s.contains(x),
    ensures
        s.insert(i, x).no_duplicates(),
{
    let r = s.insert(i, x);
    s.insert_ensures(i, x);
    assert forall|a: int, b: int| 0 <= a < r.len() && 0 <= b < r.len() && a != b implies r[a] != r[b] by {
        let sa = if a < i { a } else { a - 1 };
        let sb = if b < i { b } else { b - 1 };
        if a == i {
            assert(s[sb] == r[b]);
        } else if b == i {
            assert(s[sa] == r[a]);
        } else {
            assert(s[sa] == r[a]);
            assert(s[sb] == r[b]);
        }
    }
}

/// A copy of `v` without any occurrence of `x`.
pub fn without(v: &Vec<usize>, x: usize) -> (res: Vec<usize>)
    ensures
        res@ == v@.filter(ne_pred(x)),
{
    let mut res: Vec<usize> = Vec::new();
    let mut i: usize = 0;
    while i < v.len()
        invariant
            i <= v.len(),
            res@ == v@.take(i as int).filter(ne_pred(x)),
        decreases v.len() - i,
    {
        proof {
            assert(v@.take(i as int).push(v@[i as int]) =~= v@.take(i as int + 1));
            v@.take(i as int).lemma_filter_push(v@[i as int], ne_pred(x));
        }
        if v[i] != x {
            res.push(v[i]);
        }
        i = i + 1;
    }
    proof {
        assert(v@.take(v.len() as int) =~= v@);
    }
    res
}

/// A copy of `v` without any element of `xs`.
pub fn without_all(v: &Vec<usize>, xs: &Vec<usize>) -> (res: Vec<usize>)
    ensures
        res@ == v@.filter(not_in_pred(xs@)),
{
    let mut res: Vec<usize> = Vec::new();
    let mut i: usize = 0;
    while i < v.len()
        invariant
            i <= v.len(),
            res@ == v@.take(i as int).filter(not_in_pred(xs@)),
        decreases v.len() - i,
    {
        proof {
            assert(v@.take(i as int).push(v@[i as int]) =~= v@.take(i as int + 1));
            v@.take(i as int).lemma_filter_push(v@[i as int], not_in_pred(xs@));
        }
        let found = contains(xs, v[i]);
        if !found {
            res.push(v[i]);
        }
        i = i + 1;
    }
    proof {
        assert(v@.take(v.len() as int) =~= v@);
    }
    res
}

/// The elements of `v` that occur in `xs`, in the order of `v`.
pub fn only(v: &Vec<usize>, xs: &Vec<usize>) -> (res: Vec<usize>)
    ensures
        res@ == v@.filter(in_pred(xs@)),
{
    let mut res: Vec<usize> = Vec::new();
    let mut i: usize = 0;
    while i < v.len()
        invariant
            i <= v.len(),
            res@ == v@.take(i as int).filter(in_pred(xs@)),
        decreases v.len() - i,
    {
        proof {
            assert(v@.take(i as int).push(v@[i as int]) =~= v@.take(i as int + 1));
            v@.take(i as int).lemma_filter_push(v@[i as int], in_pred(xs@));
        }
        let found = contains(xs, v[i]);
        if found {
            res.push(v[i]);
        }
        i = i + 1;
    }
    proof {
        assert(v@.take(v.len() as int) =~= v@);
    }
    res
}

/// `v` with the element at `idx` replaced by the elements of `m`.
pub fn splice(v: &Vec<usize>, idx: usize, m: &Vec<usize>) -> (res: Vec<usize>)
    requires
        idx < v.len(),
    ensures
        res@ == v@.take(idx as int) + m@ + v@.skip(idx as int + 1),
{
    let mut res: Vec<usize> = Vec::new();
    let mut i: usize = 0;
    while i < idx
        invariant
            i <= idx < v.len(),
            res@ == v@.take(i as int),
        decreases idx - i,
    {
        res.push(v[i]);
        i = i + 1;
        proof {
            assert(res@ =~= v@.take(i as int));
        }
    }
    let mut j: usize = 0;
    while j < m.len()
        invariant
            j <= m.len(),
            idx < v.len(),
            res@ == v@.take(idx as int) + m@.take(j as int),
        decreases m.len() - j,
    {
        res.push(m[j]);
        j = j + 1;
        proof {
            assert(res@ =~= v@.take(idx as int) + m@.take(j as int));
        }
    }
    let mut k: usize = idx + 1;
    while k < v.len()
        invariant
            idx < k <= v.len(),
            res@ == v@.take(idx as int) + m@ + v@.subrange(idx as int + 1, k as int),
        decreases v.len() - k,
    {
        proof {
            assert(m@.take(m.len() as int) =~= m@);
        }
        res.push(v[k]);
        k = k + 1;
        proof {
            assert(res@ =~= v@.take(idx as int) + m@ + v@.subrange(idx as int + 1, k as int));
        }
    }
    proof {
        assert(m@.take(m.len() as int) =~= m@);
        assert(v@.subrange(idx as int + 1, v.len() as int) =~= v@.skip(idx as int + 1));
    }
    res
}

/// Whether `x` occurs in `v`.
pub fn contains(v: &Vec<usize>, x: usize) -> (res: bool)
    ensures
        res == v@.contains(x),
{
    let mut i: usize = 0;
    while i < v.len()
        invariant
            i <= v.len(),
            forall|k: int| 0 <= k < i ==> v@[k] != x,
        decreases v.len() - i,
    {
        if v[i] == x {
            return true;
        }
        i = i + 1;
    }
    false
}

/// Whether no entry of `v` occurs twice.
pub fn has_no_duplicates(v: &Vec<usize>) -> (res: bool)
    ensures
        res == v@.no_duplicates(),
{
    let mut i: usize = 0;
    while i < v.len()
        invariant
            i <= v.len(),
            forall|a: int, b: int| 0 <= a < i && 0 <= b < i && a != b ==> v@[a] != v@[b],
        decreases v.len() - i,
    {
        let mut j: usize = 0;
        while j < i
            invariant
                i < v.len(),
                j <= i,
                forall|a: int, b: int| 0 <= a < i && 0 <= b < i && a != b ==> v@[a] != v@[b],
                forall|b: int| 0 <= b < j ==> v@[b] != v@[i as int],
            decreases i - j,
        {
            if v[j] == v[i] {
                assert(!v@.no_duplicates()) by {
                    assert(v@[j as int] == v@[i as int]);
                }
                return false;
            }
            j = j + 1;
        }
        i = i + 1;
    }
    true
}

/// Whether `a` and `b` have the same entries.
pub fn same_entries(a: &Vec<usize>, b: &Vec<usize>) -> (res: bool)
    ensures
        res == (forall|x: usize| a@.contains(x) <==> b@.contains(x)),
{
    let mut i: usize = 0;
    while i < a.len()
        invariant
            i <= a.len(),
            forall|k: int| 0 <= k < i ==> b@.contains(#[trigger] a@[k]),
        decreases a.len() - i,
    {
        if !contains(b, a[i]) {
            assert(a@.contains(a@[i as int]));
            return false;
        }
        i = i + 1;
    }
    let mut j: usize = 0;
    while j < b.len()
        invariant
            j <= b.len(),
            forall|k: int| 0 <= k < a.len() ==> b@.contains(#[trigger] a@[k]),
            forall|k: int| 0 <= k < j ==> a@.contains(#[trigger] b@[k]),
        decreases b.len() - j,
    {
        if !contains(a, b[j]) {
            assert(b@.contains(b@[j as int]));
            return false;
        }
        j = j + 1;
    }
    assert forall|x: usize| a@.contains(x) <==> b@.contains(x) by {
        if a@.contains(x) {
            let k = choose|k: int| 0 <= k < a@.len() && a@[k] == x;
            assert(b@.contains(a@[k]));
        }
        if b@.contains(x) {
            let k = choose|k: int| 0 <= k < b@.len() && b@[k] == x;
            assert(a@.contains(b@[k]));
        }
    }
    true
}

/// The first position of `x` in `v`, if any.
pub fn position(v: &Vec<usize>, x: usize) -> (res: Option<usize>)
    ensures
        match res {
            Some(k) => k < v.len() && v@[k as int] == x && forall|j: int| 0 <= j < k ==> v@[j] != x,
            None => !v@.contains(x),
        },
{
    let mut i: usize = 0;
    while i < v.len()
        invariant
            i <= v.len(),
            forall|k: int| 0 <= k < i ==> v@[k] != x,
        decreases v.len() - i,
    {
        if v[i] == x {
            return Some(i);
        }
        i = i + 1;
    }
    None
}


/// `xs` with each element kept at its first occurrence only.
pub open spec fn dedup(xs: Seq<usize>) -> Seq<usize>
    decreases xs.len(),
{
    if xs.len() == 0 {
        Seq::empty()
    } else {
        let d = dedup(xs.drop_last());
        if d.contains(xs.last()) { d } else { d.push(xs.last()) }
    }
}

pub proof fn lemma_dedup_contains(xs: Seq<usize>, y: usize)
    ensures
        dedup(xs).contains(y) <==> xs.contains(y),
    decreases xs.len(),
{
    if xs.len() > 0 {
        lemma_dedup_contains(xs.drop_last(), y);
        assert(xs =~= xs.drop_last().push(xs.last()));
        if xs.contains(y) && y != xs.last() {
            let k = choose|k: int| 0 <= k < xs.len() && xs[k] == y;
            assert(xs.drop_last()[k] == y);
        }
    }
}

/// A copy of `v` with each element kept at its first occurrence only.
pub fn dedup_vec(v: &Vec<usize>) -> (res: Vec<usize>)
    ensures
        res@ == dedup(v@),
{
    let mut res: Vec<usize> = Vec::new();
    let mut i: usize = 0;
    while i < v.len()
        invariant
            i <= v.len(),
            res@ == dedup(v@.take(i as int)),
        decreases v.len() - i,
    {
        proof {
            let xs = v@.take(i as int + 1);
            assert(xs.drop_last() =~= v@.take(i as int));
            assert(xs.last() == v@[i as int]);
        }
        if !contains(&res, v[i]) {
            res.push(v[i]);
        }
        i = i + 1;
    }
    proof {
        assert(v@.take(v.len() as int) =~= v@);
    }
    res
}

/// `a` followed by `b`.
pub fn concat(a: &Vec<usize>, b: &Vec<usize>) -> (res: Vec<usize>)
    ensures
        res@ == a@ + b@,
{
    let mut res = a.clone();
    let mut i: usize = 0;
    while i < b.len()
        invariant
            i <= b.len(),
            res@ == a@ + b@.take(i as int),
        decreases b.len() - i,
    {
        res.push(b[i]);
        i = i + 1;
        proof {
            assert(res@ =~= a@ + b@.take(i as int));
        }
    }
    proof {
        assert(b@.take(b.len() as int) =~= b@);
    }
    res
}

/// `v` in reverse order.
pub fn reversed(v: &Vec<usize>) -> (res: Vec<usize>)
    ensures
        res@ == v@.reverse(),
{
    let mut res: Vec<usize> = Vec::new();
    let mut i: usize = v.len();
    while i > 0
        invariant
            i <= v.len(),
            res@ == v@.skip(i as int).reverse(),
        decreases i,
    {
        i = i - 1;
        res.push(v[i]);
        proof {
            assert(res@ =~= v@.skip(i as int).reverse());
        }
    }
    proof {
        assert(v@.skip(0) =~= v@);
    }
    res
}


/// The position of the first `x` in `v` (`v.len()` when there is none).
pub open spec fn first_index(v: Seq<usize>, x: usize) -> int
    decreases v.len(),
{
    if v.len() == 0 {
        0
    } else if v[0] == x {
        0
    } else {
        1 + first_index(v.drop_first(), x)
    }
}

pub proof fn lemma_first_index(v: Seq<usize>, x: usize, k: int)
    requires
        0 <= k < v.len(),
        v[k] == x,
        forall|j: int| 0 <= j < k ==> v[j] != x,
    ensures
        first_index(v, x) == k,
    decreases k,
{
    if k > 0 {
        lemma_first_index(v.drop_first(), x, k - 1);
    }
}

} // verus!
