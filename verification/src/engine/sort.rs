//! Sorting keys into increasing order.
use vstd::prelude::*;

verus! {

/// `s` is strictly increasing.
pub open spec fn strictly_sorted(s: Seq<u64>) -> bool {
    forall|i: int, j: int| 0 <= i < j < s.len() ==> s[i] < s[j]
}

/// The elements of a finite set of keys in increasing order.
pub open spec fn sorted_elements(set: Set<u64>) -> Seq<u64> {
    choose|s: Seq<u64>| strictly_sorted(s) && s.to_set() == set
}

/// Two strictly increasing sequences with the same elements are equal.
pub proof fn lemma_sorted_unique(a: Seq<u64>, b: Seq<u64>)
    requires
        strictly_sorted(a),
        strictly_sorted(b),
        a.to_set() == b.to_set(),
    ensures
        a == b,
    decreases a.len(),
{
    if a.len() == 0 {
        if b.len() > 0 {
            assert(b.to_set().contains(b[0]));
        }
        assert(b =~= a);
    } else {
        assert(a.to_set().contains(a[0]));
        assert(b.len() > 0);
        assert(b.to_set().contains(b[0]));
        let i = choose|i: int| 0 <= i < a.len() && a[i] == b[0];
        let j = choose|j: int| 0 <= j < b.len() && b[j] == a[0];
        assert(a[0] == b[0]) by {
            if i > 0 {
                assert(a[0] < a[i]);
            }
            if j > 0 {
                assert(b[0] < b[j]);
            }
        }
        let a1 = a.drop_first();
        let b1 = b.drop_first();
        assert(a1.to_set() =~= b1.to_set()) by {
            assert forall|x: u64| a1.to_set().contains(x) implies b1.to_set().contains(x) by {
                let p = choose|p: int| 0 <= p < a1.len() && a1[p] == x;
                assert(a[p + 1] == x);
                assert(a.to_set().contains(x));
                let q = choose|q: int| 0 <= q < b.len() && b[q] == x;
                assert(q != 0) by {
                    if q == 0 {
                        assert(a[0] < a[p + 1]);
                    }
                }
                assert(b1[q - 1] == x);
            }
            assert forall|x: u64| b1.to_set().contains(x) implies a1.to_set().contains(x) by {
                let p = choose|p: int| 0 <= p < b1.len() && b1[p] == x;
                assert(b[p + 1] == x);
                assert(b.to_set().contains(x));
                let q = choose|q: int| 0 <= q < a.len() && a[q] == x;
                assert(q != 0) by {
                    if q == 0 {
                        assert(b[0] < b[p + 1]);
                    }
                }
                assert(a1[q - 1] == x);
            }
        }
        lemma_sorted_unique(a1, b1);
        assert(a =~= b) by {
            assert forall|k: int| 0 <= k < a.len() implies a[k] == b[k] by {
                if k > 0 {
                    assert(a[k] == a1[k - 1]);
                    assert(b[k] == b1[k - 1]);
                }
            }
        }
    }
}

/// A strictly increasing sequence is the sorted sequence of its elements.
pub proof fn lemma_sorted_elements(s: Seq<u64>)
    requires
        strictly_sorted(s),
    ensures
        sorted_elements(s.to_set()) == s,
{
    let t = sorted_elements(s.to_set());
    assert(strictly_sorted(t) && t.to_set() == s.to_set());
    lemma_sorted_unique(t, s);
}

/// The elements of `s.push(x)` are those of `s` and `x`.
pub proof fn lemma_push_contains<A>(s: Seq<A>, x: A)
    ensures
        forall|y: A| #[trigger] s.push(x).contains(y) <==> (s.contains(y) || y == x),
{
    assert forall|y: A| #[trigger] s.push(x).contains(y) <==> (s.contains(y) || y == x) by {
        if s.push(x).contains(y) {
            let p = choose|p: int| 0 <= p < s.push(x).len() && s.push(x)[p] == y;
            if p < s.len() {
                assert(s[p] == y);
            }
        }
        if s.contains(y) {
            let p = choose|p: int| 0 <= p < s.len() && s[p] == y;
            assert(s.push(x)[p] == y);
        }
        if y == x {
            assert(s.push(x)[s.len() as int] == y);
        }
    }
}

/// Merges two strictly increasing sequences with no common element.
fn merge(a: Vec<u64>, b: Vec<u64>) -> (r: Vec<u64>)
    requires
        strictly_sorted(a@),
        strictly_sorted(b@),
        forall|i: int, j: int| 0 <= i < a@.len() && 0 <= j < b@.len() ==> a@[i] != b@[j],
    ensures
        strictly_sorted(r@),
        forall|x: u64| #[trigger] r@.contains(x) <==> (a@.contains(x) || b@.contains(x)),
{
    let mut r: Vec<u64> = Vec::new();
    let mut i: usize = 0;
    let mut j: usize = 0;
    while i < a.len() || j < b.len()
        invariant
            strictly_sorted(a@),
            strictly_sorted(b@),
            forall|p: int, q: int| 0 <= p < a@.len() && 0 <= q < b@.len() ==> a@[p] != b@[q],
            i <= a@.len(),
            j <= b@.len(),
            strictly_sorted(r@),
            forall|x: u64| #[trigger] r@.contains(x) <==> (a@.take(i as int).contains(x) || b@.take(j as int).contains(x)),
            forall|p: int, q: int| 0 <= p < r@.len() && i <= q < a@.len() ==> r@[p] < a@[q],
            forall|p: int, q: int| 0 <= p < r@.len() && j <= q < b@.len() ==> r@[p] < b@[q],
        decreases a@.len() + b@.len() - i - j,
    {
        let ghost r0 = r@;
        let take_a = if i < a.len() && j < b.len() { a[i] < b[j] } else { i < a.len() };
        let x: u64;
        if take_a {
            x = a[i];
            r.push(x);
            proof {
                assert(a@.take(i + 1) =~= a@.take(i as int).push(x));
                lemma_push_contains(a@.take(i as int), x);
            }
            i = i + 1;
        } else {
            x = b[j];
            r.push(x);
            proof {
                assert(b@.take(j + 1) =~= b@.take(j as int).push(x));
                lemma_push_contains(b@.take(j as int), x);
            }
            j = j + 1;
        }
        proof {
            assert(r@ =~= r0.push(x));
            lemma_push_contains(r0, x);
        }
    }
    proof {
        assert(a@.take(a@.len() as int) =~= a@);
        assert(b@.take(b@.len() as int) =~= b@);
    }
    r
}

/// Sorts keys that occur at most once into increasing order.
pub fn sort_keys(v: Vec<u64>) -> (r: Vec<u64>)
    requires
        v@.no_duplicates(),
    ensures
        strictly_sorted(r@),
        r@.to_set() == v@.to_set(),
        r@ == sorted_elements(v@.to_set()),
    decreases v@.len(),
{
    let ghost v0 = v@;
    let r = if v.len() <= 1 {
        v
    } else {
        let mut left = v;
        let mid = left.len() / 2;
        let right = left.split_off(mid);
        proof {
            assert(v0 =~= left@ + right@);
            assert forall|p: int, q: int| 0 <= p < q < left@.len() implies left@[p] != left@[q] by {
                assert(v0[p] == left@[p] && v0[q] == left@[q]);
            }
            assert forall|p: int, q: int| 0 <= p < q < right@.len() implies right@[p] != right@[q] by {
                assert(v0[p + mid] == right@[p] && v0[q + mid] == right@[q]);
            }
        }
        let sl = sort_keys(left);
        let sr = sort_keys(right);
        proof {
            assert forall|p: int, q: int| 0 <= p < sl@.len() && 0 <= q < sr@.len() implies sl@[p] != sr@[q] by {
                assert(sl@.to_set().contains(sl@[p]));
                assert(sr@.to_set().contains(sr@[q]));
                if sl@[p] == sr@[q] {
                    let p2 = choose|p2: int| 0 <= p2 < left@.len() && left@[p2] == sl@[p];
                    let q2 = choose|q2: int| 0 <= q2 < right@.len() && right@[q2] == sr@[q];
                    assert(v0[p2] == v0[q2 + mid]);
                }
            }
        }
        let m = merge(sl, sr);
        proof {
            assert forall|x: u64| m@.to_set().contains(x) <==> v0.to_set().contains(x) by {
                assert(sl@.to_set().contains(x) == left@.to_set().contains(x));
                assert(sr@.to_set().contains(x) == right@.to_set().contains(x));
                if v0.contains(x) {
                    let p = choose|p: int| 0 <= p < v0.len() && v0[p] == x;
                    if p < mid {
                        assert(left@[p] == x);
                    } else {
                        assert(right@[p - mid] == x);
                    }
                }
                if left@.contains(x) {
                    let p = choose|p: int| 0 <= p < left@.len() && left@[p] == x;
                    assert(v0[p] == x);
                }
                if right@.contains(x) {
                    let p = choose|p: int| 0 <= p < right@.len() && right@[p] == x;
                    assert(v0[p + mid] == x);
                }
            }
            assert(m@.to_set() =~= v0.to_set());
        }
        m
    };
    proof {
        if v0.len() <= 1 {
            assert(r@ == v0);
        }
        lemma_sorted_elements(r@);
    }
    r
}

} // verus!
