//! Facts about sequences of window ids.
use vstd::prelude::*;

verus! {

/// A value absent from a concatenation is absent from both parts.
pub proof fn lemma_concat_absent(a: Seq<u64>, b: Seq<u64>, w: u64)
    requires
        !(a + b).contains(w),
    ensures
        !a.contains(w),
        !b.contains(w),
{
    if a.contains(w) {
        let k = choose|k: int| 0 <= k < a.len() && a[k] == w;
        assert((a + b)[k] == w);
    }
    if b.contains(w) {
        let k = choose|k: int| 0 <= k < b.len() && b[k] == w;
        assert((a + b)[a.len() + k] == w);
    }
}

/// Both parts of a duplicate-free concatenation are duplicate-free and share
/// no value.
pub proof fn lemma_concat_no_duplicates(a: Seq<u64>, b: Seq<u64>)
    requires
        (a + b).no_duplicates(),
    ensures
        a.no_duplicates(),
        b.no_duplicates(),
        forall|x: u64| a.contains(x) ==> !b.contains(x),
{
    let s = a + b;
    assert forall|i: int, j: int| 0 <= i < a.len() && 0 <= j < a.len() && i != j implies a[i]
        != a[j] by {
        assert(s[i] == a[i] && s[j] == a[j]);
    }
    assert forall|i: int, j: int| 0 <= i < b.len() && 0 <= j < b.len() && i != j implies b[i]
        != b[j] by {
        assert(s[a.len() + i] == b[i] && s[a.len() + j] == b[j]);
    }
    assert forall|x: u64| a.contains(x) implies !b.contains(x) by {
        let i = choose|i: int| 0 <= i < a.len() && a[i] == x;
        if b.contains(x) {
            let j = choose|j: int| 0 <= j < b.len() && b[j] == x;
            assert(s[i] == x && s[a.len() + j] == x);
        }
    }
}

/// Filtering out a value that does not occur leaves a sequence unchanged.
pub proof fn lemma_filter_absent(s: Seq<u64>, w: u64)
    requires
        !s.contains(w),
    ensures
        s.filter(|x: u64| x != w) == s,
    decreases s.len(),
{
    reveal_with_fuel(Seq::filter, 1);
    if s.len() > 0 {
        assert(!s.drop_last().contains(w)) by {
            if s.drop_last().contains(w) {
                let k = choose|k: int| 0 <= k < s.drop_last().len() && s.drop_last()[k] == w;
                assert(s[k] == w);
            }
        }
        lemma_filter_absent(s.drop_last(), w);
        assert(s.drop_last().push(s.last()) =~= s);
    } else {
        assert(s =~= Seq::<u64>::empty());
    }
}

/// Appending a value that does not occur keeps a sequence duplicate-free.
pub proof fn lemma_push_no_duplicates(s: Seq<u64>, w: u64)
    requires
        s.no_duplicates(),
        !s.contains(w),
    ensures
        s.push(w).no_duplicates(),
{
    let t = s.push(w);
    assert forall|i: int, j: int| 0 <= i < t.len() && 0 <= j < t.len() && i != j implies t[i]
        != t[j] by {
        if i == s.len() {
            assert(s[j] == t[j]);
        } else if j == s.len() {
            assert(s[i] == t[i]);
        }
    }
}

/// In a sequence without duplicates, removing the entry at `i` is the same
/// as filtering out its value; the result has no duplicates.
pub proof fn lemma_remove_index_is_filter(s: Seq<u64>, i: int, w: u64)
    requires
        s.no_duplicates(),
        0 <= i < s.len(),
        s[i] == w,
    ensures
        s.remove(i) == s.filter(|x: u64| x != w),
        s.remove(i).no_duplicates(),
{
    let p = |x: u64| x != w;
    let a = s.subrange(0, i);
    let b = s.subrange(i + 1, s.len() as int);
    assert(s =~= a + (seq![w] + b));
    assert(s.remove(i) =~= a + b);
    assert(!a.contains(w)) by {
        if a.contains(w) {
            let k = choose|k: int| 0 <= k < a.len() && a[k] == w;
            assert(s[k] == w);
        }
    }
    assert(!b.contains(w)) by {
        if b.contains(w) {
            let k = choose|k: int| 0 <= k < b.len() && b[k] == w;
            assert(s[i + 1 + k] == w);
        }
    }
    lemma_filter_absent(a, w);
    lemma_filter_absent(b, w);
    Seq::filter_distributes_over_add(a, seq![w] + b, p);
    Seq::filter_distributes_over_add(seq![w], b, p);
    lemma_filter_single(w);
    assert(Seq::<u64>::empty() + b =~= b);
    assert(s.filter(p) =~= a + b);
    lemma_remove_no_duplicates(s, i);
}

/// Removing an entry keeps a sequence duplicate-free.
pub proof fn lemma_remove_no_duplicates(s: Seq<u64>, i: int)
    requires
        s.no_duplicates(),
        0 <= i < s.len(),
    ensures
        s.remove(i).no_duplicates(),
{
    let r = s.remove(i);
    assert forall|x: int, y: int| 0 <= x < r.len() && 0 <= y < r.len() && x != y implies r[x]
        != r[y] by {
        let sx = if x < i { x } else { x + 1 };
        let sy = if y < i { y } else { y + 1 };
        assert(r[x] == s[sx] && r[y] == s[sy]);
    }
}

/// Filtering a value out of the sequence holding only it leaves nothing.
pub proof fn lemma_filter_single(w: u64)
    ensures
        seq![w].filter(|x: u64| x != w) == Seq::<u64>::empty(),
{
    reveal_with_fuel(Seq::filter, 2);
    assert(seq![w].drop_last() =~= Seq::<u64>::empty());
    assert(seq![w].filter(|x: u64| x != w) =~= Seq::<u64>::empty());
}

/// After a push, a sequence holds the old values and the pushed one.
pub proof fn lemma_push_contains(s: Seq<u64>, w: u64, x: u64)
    ensures
        s.push(w).contains(x) <==> (s.contains(x) || x == w),
{
    if s.push(w).contains(x) {
        let k = choose|k: int| 0 <= k < s.push(w).len() && s.push(w)[k] == x;
        if k < s.len() {
            assert(s[k] == x);
        }
    }
    if s.contains(x) {
        let k = choose|k: int| 0 <= k < s.len() && s[k] == x;
        assert(s.push(w)[k] == x);
    }
    if x == w {
        assert(s.push(w)[s.len() as int] == x);
    }
}

/// Filtering keeps only values that occur in the filtered sequence.
pub proof fn lemma_filter_subset(s: Seq<u64>, w: u64, x: u64)
    requires
        s.filter(|y: u64| y != w).contains(x),
    ensures
        s.contains(x),
        x != w,
    decreases s.len(),
{
    let p = |y: u64| y != w;
    reveal_with_fuel(Seq::filter, 1);
    let f = s.filter(p);
    let k = choose|k: int| 0 <= k < f.len() && f[k] == x;
    s.lemma_filter_pred(p, k);
    if s.len() > 0 {
        let d = s.drop_last();
        let f0 = d.filter(p);
        if f0.contains(x) {
            lemma_filter_subset(d, w, x);
            let j = choose|j: int| 0 <= j < d.len() && d[j] == x;
            assert(s[j] == x);
        } else {
            if p(s.last()) {
                assert(f == f0.push(s.last()));
                if k < f0.len() {
                    assert(f0[k] == x);
                }
                assert(s[s.len() - 1] == x);
            } else {
                assert(f == f0);
            }
        }
    }
}

/// A value filtered out of a sequence no longer occurs in it.
pub proof fn lemma_filter_drops(s: Seq<u64>, w: u64)
    ensures
        !s.filter(|x: u64| x != w).contains(w),
{
    let p = |x: u64| x != w;
    let f = s.filter(p);
    if f.contains(w) {
        let k = choose|k: int| 0 <= k < f.len() && f[k] == w;
        s.lemma_filter_pred(p, k);
    }
}

} // verus!
