//! Stable sorting, as `slice::sort_by` does it: the result is ordered by the
//! comparison and elements that compare equal keep their relative order.
use vstd::prelude::*;
use vstd::set_lib::{lemma_int_range, lemma_subset_equality, set_int_range};

verus! {

/// A value that can be copied exactly.
pub trait Duplicate: View + Sized {
    fn duplicate(&self) -> (r: Self)
        ensures
            r@ == self@,
    ;
}

impl Duplicate for usize {
    fn duplicate(&self) -> (r: Self) {
        *self
    }
}

impl Duplicate for String {
    fn duplicate(&self) -> (r: Self) {
        self.clone()
    }
}

/// The views of the elements of `s`.
pub open spec fn view_seq<T: View>(s: Seq<T>) -> Seq<T::V> {
    s.map_values(|t: T| t@)
}

/// At most the first `n` elements of `s`.
pub open spec fn first_n<T>(s: Seq<T>, n: nat) -> Seq<T> {
    if s.len() > n {
        s.take(n as int)
    } else {
        s
    }
}

/// `p` lists each of the positions `0..n` exactly once.
pub open spec fn is_arrangement(p: Seq<usize>, n: nat) -> bool {
    &&& p.len() == n
    &&& forall|k: int| 0 <= k < n ==> #[trigger] p[k] < n
    &&& forall|k: int, l: int| 0 <= k < l < n ==> #[trigger] p[k] != #[trigger] p[l]
}

/// `b` is a strict weak order: irreflexive, transitive, and elements that
/// are not ordered either way are interchangeable.
pub open spec fn strict_weak_order<T>(b: spec_fn(T, T) -> bool) -> bool {
    &&& forall|x: T| !#[trigger] b(x, x)
    &&& forall|x: T, y: T, z: T| #[trigger] b(x, y) && #[trigger] b(y, z) ==> b(x, z)
    &&& forall|x: T, y: T, z: T|
        !#[trigger] b(x, y) && !#[trigger] b(y, z) ==> !b(x, z)
}

/// Position `i` of `s` comes before position `j` in a stable sort by `b`.
pub open spec fn stable_before<T>(s: Seq<T>, b: spec_fn(T, T) -> bool, i: int, j: int) -> bool {
    b(s[i], s[j]) || (!b(s[j], s[i]) && i < j)
}

/// `out` is `inp` stably sorted by the strict weak order `b`: it holds the
/// elements of `inp` at an arrangement of their positions in which every
/// element is placed before the ones it precedes by `b`, and equal elements
/// keep their order.
pub open spec fn is_stable_sort<T>(out: Seq<T>, inp: Seq<T>, b: spec_fn(T, T) -> bool) -> bool {
    exists|p: Seq<usize>| #[trigger]
        is_arrangement(p, inp.len()) && (forall|k: int, l: int|
            0 <= k < l < p.len() ==> stable_before(inp, b, #[trigger] p[k] as int, #[trigger] p[l] as int))
            && out.len() == inp.len() && (forall|k: int|
            0 <= k < out.len() ==> #[trigger] out[k] == inp[p[k] as int])
}

/// Sorts `v` stably by the comparison `before`, which decides `b`.
pub fn stable_sort<T: View + Duplicate, F: Fn(&T, &T) -> bool>(
    v: &Vec<T>,
    before: &F,
    Ghost(b): Ghost<spec_fn(T::V, T::V) -> bool>,
) -> (r: Vec<T>)
    requires
        forall|i: int, j: int|
            0 <= i < v@.len() && 0 <= j < v@.len() ==> #[trigger] call_requires(*before, (&v@[i], &v@[j])),
        forall|x: &T, y: &T, res: bool| #[trigger]
            call_ensures(*before, (x, y), res) ==> res == b(x@, y@),
        strict_weak_order(b),
    ensures
        is_stable_sort(view_seq(r@), view_seq(v@), b),
{
    let n = v.len();
    let ghost s = view_seq(v@);
    let mut p: Vec<usize> = Vec::new();
    let mut i: usize = 0;
    while i < n
        invariant
            n == v@.len(),
            s == view_seq(v@),
            i <= n,
            forall|i: int, j: int|
                0 <= i < v@.len() && 0 <= j < v@.len() ==> #[trigger] call_requires(*before, (&v@[i], &v@[j])),
            forall|x: &T, y: &T, res: bool| #[trigger]
                call_ensures(*before, (x, y), res) ==> res == b(x@, y@),
            strict_weak_order(b),
            p@.len() == i,
            forall|k: int| 0 <= k < i ==> #[trigger] p@[k] < i,
            forall|k: int, l: int| 0 <= k < l < i ==> #[trigger] p@[k] != #[trigger] p@[l],
            forall|k: int, l: int|
                0 <= k < l < i ==> stable_before(s, b, #[trigger] p@[k] as int, #[trigger] p@[l] as int),
        decreases n - i,
    {
        let mut k: usize = 0;
        while k < p.len() && !before(&v[i], &v[p[k]])
            invariant
                n == v@.len(),
                s == view_seq(v@),
                i < n,
                k <= p@.len(),
                p@.len() == i,
                forall|i: int, j: int|
                    0 <= i < v@.len() && 0 <= j < v@.len() ==> #[trigger] call_requires(*before, (&v@[i], &v@[j])),
                forall|x: &T, y: &T, res: bool| #[trigger]
                    call_ensures(*before, (x, y), res) ==> res == b(x@, y@),
                forall|k: int| 0 <= k < i ==> #[trigger] p@[k] < i,
                forall|j: int| 0 <= j < k ==> !b(s[i as int], s[#[trigger] p@[j] as int]),
            decreases p@.len() - k,
        {
            k = k + 1;
        }
        let ghost old_p = p@;
        proof {
            assert forall|j: int| 0 <= j < k implies stable_before(s, b, #[trigger] old_p[j] as int, i as int) by {
                assert(!b(s[i as int], s[old_p[j] as int]));
                assert(old_p[j] < i);
            }
            if k < old_p.len() {
                assert(b(s[i as int], s[old_p[k as int] as int]));
                assert forall|j: int| k <= j < old_p.len() implies stable_before(s, b, i as int, #[trigger] old_p[j] as int) by {
                    if j > k {
                        assert(stable_before(s, b, old_p[k as int] as int, old_p[j] as int));
                        let x = s[i as int];
                        let y = s[old_p[k as int] as int];
                        let z = s[old_p[j] as int];
                        assert(b(x, y));
                        if !b(x, z) {
                            if b(y, z) {
                                assert(b(x, z));
                            } else {
                                assert(!b(z, y));
                                assert(!b(y, x) || b(x, y));
                                if !b(z, x) {
                                    assert(!b(z, x) && !b(x, y) ==> !b(z, y));
                                    assert(b(x, y) && b(y, z) ==> b(x, z));
                                    // x before y and y not before z: x before z or z before y
                                    assert(!b(x, z) && !b(z, y) ==> !b(x, y));
                                }
                            }
                        }
                    }
                }
            }
        }
        p.insert(k, i);
        proof {
            assert forall|a: int, c: int| 0 <= a < c < i + 1 implies stable_before(s, b, #[trigger] p@[a] as int, #[trigger] p@[c] as int) by {
                if a < k && c < k {
                    assert(p@[a] == old_p[a] && p@[c] == old_p[c]);
                } else if a < k && c == k {
                } else if a < k && c > k {
                    assert(p@[a] == old_p[a] && p@[c] == old_p[c - 1]);
                } else if a == k {
                    assert(p@[c] == old_p[c - 1]);
                } else {
                    assert(p@[a] == old_p[a - 1] && p@[c] == old_p[c - 1]);
                }
            }
            assert forall|a: int, c: int| 0 <= a < c < i + 1 implies #[trigger] p@[a] != #[trigger] p@[c] by {
                if a < k && c < k {
                    assert(p@[a] == old_p[a] && p@[c] == old_p[c]);
                } else if a < k && c == k {
                    assert(p@[a] == old_p[a]);
                } else if a < k && c > k {
                    assert(p@[a] == old_p[a] && p@[c] == old_p[c - 1]);
                } else if a == k {
                    assert(p@[c] == old_p[c - 1]);
                } else {
                    assert(p@[a] == old_p[a - 1] && p@[c] == old_p[c - 1]);
                }
            }
            assert forall|a: int| 0 <= a < i + 1 implies #[trigger] p@[a] < i + 1 by {
                if a < k {
                    assert(p@[a] == old_p[a]);
                } else if a > k {
                    assert(p@[a] == old_p[a - 1]);
                }
            }
        }
        i = i + 1;
    }
    let mut out: Vec<T> = Vec::new();
    let mut k: usize = 0;
    while k < n
        invariant
            n == v@.len(),
            s == view_seq(v@),
            p@.len() == n,
            forall|j: int| 0 <= j < n ==> #[trigger] p@[j] < n,
            k <= n,
            out@.len() == k,
            forall|j: int| 0 <= j < k ==> #[trigger] out@[j]@ == v@[p@[j] as int]@,
        decreases n - k,
    {
        let e = v[p[k]].duplicate();
        out.push(e);
        k = k + 1;
    }
    assert(is_arrangement(p@, s.len()));
    assert forall|j: int| 0 <= j < n implies #[trigger] view_seq(out@)[j] == s[p@[j] as int] by {
        assert(out@[j]@ == v@[p@[j] as int]@);
    }
    out
}

/// A stable sort keeps the number of elements.
pub proof fn lemma_stable_sort_len<T>(out: Seq<T>, inp: Seq<T>, b: spec_fn(T, T) -> bool)
    requires
        is_stable_sort(out, inp, b),
    ensures
        out.len() == inp.len(),
{
}

/// Every element of a stable sort comes from the input.
pub proof fn lemma_stable_sort_from_input<T>(out: Seq<T>, inp: Seq<T>, b: spec_fn(T, T) -> bool, k: int)
    requires
        is_stable_sort(out, inp, b),
        0 <= k < out.len(),
    ensures
        exists|j: int| 0 <= j < inp.len() && out[k] == #[trigger] inp[j],
{
    let p = choose|p: Seq<usize>| #[trigger]
        is_arrangement(p, inp.len()) && (forall|k: int, l: int|
            0 <= k < l < p.len() ==> stable_before(inp, b, #[trigger] p[k] as int, #[trigger] p[l] as int))
            && out.len() == inp.len() && (forall|k: int|
            0 <= k < out.len() ==> #[trigger] out[k] == inp[p[k] as int]);
    assert(out[k] == inp[p[k] as int]);
    assert(p[k] < inp.len());
}

/// An arrangement of `0..n` lists every one of those positions.
proof fn lemma_arrangement_covers(p: Seq<usize>, n: nat, v: int)
    requires
        is_arrangement(p, n),
        0 <= v < n,
    ensures
        exists|k: int| 0 <= k < n && p[k] == v,
{
    let q = p.map_values(|x: usize| x as int);
    assert(q.no_duplicates()) by {
        assert forall|i: int, j: int| 0 <= i < q.len() && 0 <= j < q.len() && i != j implies q[i] != q[j] by {
            if i < j {
                assert(p[i] != p[j]);
            } else {
                assert(p[j] != p[i]);
            }
        }
    }
    q.unique_seq_to_set();
    lemma_int_range(0, n as int);
    assert(q.to_set().subset_of(set_int_range(0, n as int))) by {
        assert forall|x: int| q.to_set().contains(x) implies set_int_range(0, n as int).contains(x) by {
            let k = choose|k: int| 0 <= k < q.len() && q[k] == x;
            assert(p[k] < n);
        }
    }
    vstd::seq_lib::seq_to_set_is_finite(q);
    lemma_subset_equality(q.to_set(), set_int_range(0, n as int));
    assert(set_int_range(0, n as int).contains(v));
    assert(q.to_set().contains(v));
    let k = choose|k: int| 0 <= k < q.len() && q[k] == v;
    assert(p[k] == v);
}

/// Under a strict weak order, two different positions are never each placed
/// before the other.
proof fn lemma_stable_before_asymmetric<T>(s: Seq<T>, b: spec_fn(T, T) -> bool, i: int, j: int)
    requires
        strict_weak_order(b),
        i != j,
        stable_before(s, b, i, j),
    ensures
        !stable_before(s, b, j, i),
{
    if b(s[i], s[j]) && b(s[j], s[i]) {
        assert(b(s[i], s[i]));
    }
}

/// Two stable sorts of the same input agree on their first `k` positions.
proof fn lemma_sorts_agree<T>(inp: Seq<T>, b: spec_fn(T, T) -> bool, p1: Seq<usize>, p2: Seq<usize>, k: int)
    requires
        strict_weak_order(b),
        is_arrangement(p1, inp.len()),
        is_arrangement(p2, inp.len()),
        forall|x: int, y: int|
            0 <= x < y < p1.len() ==> stable_before(inp, b, #[trigger] p1[x] as int, #[trigger] p1[y] as int),
        forall|x: int, y: int|
            0 <= x < y < p2.len() ==> stable_before(inp, b, #[trigger] p2[x] as int, #[trigger] p2[y] as int),
        0 <= k <= inp.len(),
    ensures
        forall|j: int| 0 <= j < k ==> #[trigger] p1[j] == p2[j],
    decreases k,
{
    if k > 0 {
        lemma_sorts_agree(inp, b, p1, p2, k - 1);
        let x = p1[k - 1];
        let y = p2[k - 1];
        if x != y {
            lemma_arrangement_covers(p1, inp.len(), y as int);
            let l = choose|l: int| 0 <= l < inp.len() && p1[l] == y;
            if l < k - 1 {
                assert(p2[l] == y);
                assert(p2[l] != p2[k - 1]);
            }
            assert(l > k - 1);
            assert(stable_before(inp, b, x as int, y as int));
            lemma_arrangement_covers(p2, inp.len(), x as int);
            let m = choose|m: int| 0 <= m < inp.len() && p2[m] == x;
            if m < k - 1 {
                assert(p1[m] == x);
                assert(p1[m] != p1[k - 1]);
            }
            assert(m > k - 1);
            assert(stable_before(inp, b, y as int, x as int));
            lemma_stable_before_asymmetric(inp, b, x as int, y as int);
        }
    }
}

/// A stable sort by a strict weak order is unique: two stable sorts of the
/// same input are equal.
pub proof fn lemma_stable_sort_unique<T>(o1: Seq<T>, o2: Seq<T>, inp: Seq<T>, b: spec_fn(T, T) -> bool)
    requires
        strict_weak_order(b),
        is_stable_sort(o1, inp, b),
        is_stable_sort(o2, inp, b),
    ensures
        o1 == o2,
{
    let p1 = choose|p: Seq<usize>| #[trigger]
        is_arrangement(p, inp.len()) && (forall|k: int, l: int|
            0 <= k < l < p.len() ==> stable_before(inp, b, #[trigger] p[k] as int, #[trigger] p[l] as int))
            && o1.len() == inp.len() && (forall|k: int|
            0 <= k < o1.len() ==> #[trigger] o1[k] == inp[p[k] as int]);
    let p2 = choose|p: Seq<usize>| #[trigger]
        is_arrangement(p, inp.len()) && (forall|k: int, l: int|
            0 <= k < l < p.len() ==> stable_before(inp, b, #[trigger] p[k] as int, #[trigger] p[l] as int))
            && o2.len() == inp.len() && (forall|k: int|
            0 <= k < o2.len() ==> #[trigger] o2[k] == inp[p[k] as int]);
    lemma_sorts_agree(inp, b, p1, p2, inp.len() as int);
    assert forall|k: int| 0 <= k < o1.len() implies o1[k] == o2[k] by {
        assert(p1[k] == p2[k]);
    }
    assert(o1 =~= o2);
}

/// A stable sort is ordered: no element is placed after one it precedes.
pub proof fn lemma_stable_sort_sorted<T>(out: Seq<T>, inp: Seq<T>, b: spec_fn(T, T) -> bool)
    requires
        strict_weak_order(b),
        is_stable_sort(out, inp, b),
    ensures
        forall|k: int, l: int| 0 <= k < l < out.len() ==> !b(#[trigger] out[l], #[trigger] out[k]),
{
    let p = choose|p: Seq<usize>| #[trigger]
        is_arrangement(p, inp.len()) && (forall|k: int, l: int|
            0 <= k < l < p.len() ==> stable_before(inp, b, #[trigger] p[k] as int, #[trigger] p[l] as int))
            && out.len() == inp.len() && (forall|k: int|
            0 <= k < out.len() ==> #[trigger] out[k] == inp[p[k] as int]);
    assert forall|k: int, l: int| 0 <= k < l < out.len() implies !b(#[trigger] out[l], #[trigger] out[k]) by {
        assert(stable_before(inp, b, p[k] as int, p[l] as int));
        assert(out[k] == inp[p[k] as int]);
        assert(out[l] == inp[p[l] as int]);
        if b(out[k], out[l]) && b(out[l], out[k]) {
            assert(b(out[k], out[k]));
        }
    }
}

/// Every element of the input is in a stable sort.
pub proof fn lemma_stable_sort_keeps_input<T>(out: Seq<T>, inp: Seq<T>, b: spec_fn(T, T) -> bool, j: int)
    requires
        is_stable_sort(out, inp, b),
        0 <= j < inp.len(),
    ensures
        exists|k: int| 0 <= k < out.len() && #[trigger] out[k] == inp[j],
{
    let p = choose|p: Seq<usize>| #[trigger]
        is_arrangement(p, inp.len()) && (forall|k: int, l: int|
            0 <= k < l < p.len() ==> stable_before(inp, b, #[trigger] p[k] as int, #[trigger] p[l] as int))
            && out.len() == inp.len() && (forall|k: int|
            0 <= k < out.len() ==> #[trigger] out[k] == inp[p[k] as int]);
    lemma_arrangement_covers(p, inp.len(), j);
    let k = choose|k: int| 0 <= k < inp.len() && p[k] == j;
    assert(out[k] == inp[j]);
}

} // verus!
