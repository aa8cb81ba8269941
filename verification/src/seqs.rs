//! Facts about sequences that the queues rely on.
use vstd::prelude::*;

verus! {

/// Filtering keeps the elements that pass, and only those, and adds no
/// duplicates.
pub proof fn lemma_filter_facts<A>(s: Seq<A>, pred: spec_fn(A) -> bool)
    ensures
        forall|x: A| #[trigger] s.filter(pred).contains(x) <==> (s.contains(x) && pred(x)),
        s.no_duplicates() ==> s.filter(pred).no_duplicates(),
        s.filter(pred).len() <= s.len(),
    decreases s.len(),
{
    reveal(Seq::filter);
    if s.len() > 0 {
        let d = s.drop_last();
        lemma_filter_facts(d, pred);
        let f = d.filter(pred);
        assert forall|x: A| #[trigger] s.filter(pred).contains(x) <==> (s.contains(x) && pred(x)) by {
            if s.contains(x) && pred(x) {
                let k = choose|k: int| 0 <= k < s.len() && s[k] == x;
                if k == s.len() - 1 {
                    assert(s.filter(pred)[s.filter(pred).len() - 1] == x);
                } else {
                    assert(d[k] == x);
                    assert(f.contains(x));
                    let j = choose|j: int| 0 <= j < f.len() && f[j] == x;
                    assert(s.filter(pred)[j] == x);
                }
            }
            if s.filter(pred).contains(x) {
                let j = choose|j: int| 0 <= j < s.filter(pred).len() && s.filter(pred)[j] == x;
                if pred(s.last()) && j == s.filter(pred).len() - 1 {
                    assert(s[s.len() - 1] == x);
                } else {
                    assert(f[j] == x);
                    assert(f.contains(x));
                    let k = choose|k: int| 0 <= k < d.len() && d[k] == x;
                    assert(s[k] == x);
                }
            }
        }
        if s.no_duplicates() {
            assert(d.no_duplicates()) by {
                assert forall|i: int, j: int| 0 <= i < d.len() && 0 <= j < d.len() && i != j implies d[i] != d[j] by {
                    assert(d[i] == s[i] && d[j] == s[j]);
                }
            }
            if pred(s.last()) {
                assert(!f.contains(s.last())) by {
                    if f.contains(s.last()) {
                        let k = choose|k: int| 0 <= k < d.len() && d[k] == s.last();
                        assert(s[k] == s[s.len() - 1]);
                    }
                }
                let g = s.filter(pred);
                assert forall|i: int, j: int| 0 <= i < g.len() && 0 <= j < g.len() && i != j implies g[i] != g[j] by {
                    if i == g.len() - 1 {
                        assert(f.contains(g[j]));
                    } else if j == g.len() - 1 {
                        assert(f.contains(g[i]));
                    } else {
                        assert(g[i] == f[i] && g[j] == f[j]);
                    }
                }
            }
        }
    }
}

/// Filtering a prefix one element longer.
pub proof fn lemma_filter_take_step<A>(s: Seq<A>, pred: spec_fn(A) -> bool, i: int)
    requires
        0 <= i < s.len(),
    ensures
        s.take(i + 1).filter(pred) == (if pred(s[i]) {
            s.take(i).filter(pred).push(s[i])
        } else {
            s.take(i).filter(pred)
        }),
{
    reveal_with_fuel(Seq::filter, 1);
    assert(s.take(i + 1).drop_last() =~= s.take(i));
}

/// Appending a new element keeps a sequence free of duplicates.
pub proof fn lemma_push_no_dups<A>(s: Seq<A>, x: A)
    requires
        s.no_duplicates(),
        !s.contains(x),
    ensures
        s.push(x).no_duplicates(),
{
    let t = s.push(x);
    assert forall|i: int, j: int| 0 <= i < t.len() && 0 <= j < t.len() && i != j implies t[i] != t[j] by {
        if i == s.len() {
            assert(s.contains(t[j]));
        } else if j == s.len() {
            assert(s.contains(t[i]));
        } else {
            assert(t[i] == s[i] && t[j] == s[j]);
        }
    }
}

/// Two disjoint sequences without duplicates make one without duplicates.
pub proof fn lemma_concat_no_dups<A>(a: Seq<A>, b: Seq<A>)
    requires
        a.no_duplicates(),
        b.no_duplicates(),
        forall|x: A| a.contains(x) ==> !b.contains(x),
    ensures
        (a + b).no_duplicates(),
{
    let t = a + b;
    assert forall|i: int, j: int| 0 <= i < t.len() && 0 <= j < t.len() && i != j implies t[i] != t[j] by {
        if i < a.len() && j < a.len() {
            assert(t[i] == a[i] && t[j] == a[j]);
        } else if i >= a.len() && j >= a.len() {
            assert(t[i] == b[i - a.len()] && t[j] == b[j - a.len()]);
        } else if i < a.len() {
            assert(a.contains(t[i]));
            assert(b.contains(t[j])) by {
                assert(t[j] == b[j - a.len()]);
            }
        } else {
            assert(a.contains(t[j]));
            assert(b.contains(t[i])) by {
                assert(t[i] == b[i - a.len()]);
            }
        }
    }
}

/// The parts of a sequence without duplicates before and after a cut are
/// free of duplicates and disjoint.
pub proof fn lemma_take_skip_no_dups<A>(s: Seq<A>, k: int)
    requires
        s.no_duplicates(),
        0 <= k <= s.len(),
    ensures
        s.take(k).no_duplicates(),
        s.skip(k).no_duplicates(),
        forall|x: A| s.take(k).contains(x) ==> !s.skip(k).contains(x),
        forall|x: A| s.take(k).contains(x) ==> s.contains(x),
        forall|x: A| s.skip(k).contains(x) ==> s.contains(x),
{
    let a = s.take(k);
    let b = s.skip(k);
    assert forall|i: int, j: int| 0 <= i < a.len() && 0 <= j < a.len() && i != j implies a[i] != a[j] by {
        assert(a[i] == s[i] && a[j] == s[j]);
    }
    assert forall|i: int, j: int| 0 <= i < b.len() && 0 <= j < b.len() && i != j implies b[i] != b[j] by {
        assert(b[i] == s[i + k] && b[j] == s[j + k]);
    }
    assert forall|x: A| a.contains(x) implies !b.contains(x) by {
        let i = choose|i: int| 0 <= i < a.len() && a[i] == x;
        if b.contains(x) {
            let j = choose|j: int| 0 <= j < b.len() && b[j] == x;
            assert(s[i] == s[j + k]);
        }
    }
    assert forall|x: A| a.contains(x) implies s.contains(x) by {
        let i = choose|i: int| 0 <= i < a.len() && a[i] == x;
        assert(s[i] == x);
    }
    assert forall|x: A| b.contains(x) implies s.contains(x) by {
        let j = choose|j: int| 0 <= j < b.len() && b[j] == x;
        assert(s[j + k] == x);
    }
}

} // verus!
