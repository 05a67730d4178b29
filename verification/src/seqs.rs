//! Sequences that are put together piece by piece, and texts put in order.

use vstd::prelude::*;
use vstd::relations::{sorted_by, total_ordering};
use vstd::seq_lib::{lemma_multiset_commutative, lemma_sorted_unique};

use crate::text::{to_chars, views};

verus! {

/// `f(0)`, `f(1)` … `f(n - 1)`, one behind the other.
pub open spec fn gather<T>(f: spec_fn(int) -> Seq<T>, n: int) -> Seq<T>
    decreases n,
{
    if n <= 0 {
        Seq::empty()
    } else {
        gather(f, n - 1) + f(n - 1)
    }
}

/// What stands in a piece stands in the whole.
pub proof fn lemma_gathered<T>(f: spec_fn(int) -> Seq<T>, n: int, i: int, k: int)
    requires
        0 <= i < n,
        0 <= k < f(i).len(),
    ensures
        gather(f, n).contains(f(i)[k]),
    decreases n,
{
    let head = gather(f, n - 1);
    if i == n - 1 {
        assert(gather(f, n)[head.len() + k] == f(i)[k]);
    } else {
        lemma_gathered(f, n - 1, i, k);
        let j = choose|j: int| 0 <= j < head.len() && head[j] == f(i)[k];
        assert(gather(f, n)[j] == f(i)[k]);
    }
}

/// What stands in the whole stands in a piece.
pub proof fn lemma_gathered_from<T>(f: spec_fn(int) -> Seq<T>, n: int, k: int) -> (r: (int, int))
    requires
        0 <= k < gather(f, n).len(),
    ensures
        0 <= r.0 < n,
        0 <= r.1 < f(r.0).len(),
        f(r.0)[r.1] == gather(f, n)[k],
    decreases n,
{
    let head = gather(f, n - 1);
    if k < head.len() {
        lemma_gathered_from(f, n - 1, k)
    } else {
        (n - 1, k - head.len())
    }
}

/// Whether `a` comes no later than `b`: by the first character that differs, and
/// a text before those that it begins.
pub open spec fn comes_first(a: Seq<char>, b: Seq<char>) -> bool
    decreases a.len(),
{
    if a.len() == 0 {
        true
    } else if b.len() == 0 {
        false
    } else if a[0] != b[0] {
        a[0] < b[0]
    } else {
        comes_first(a.skip(1), b.skip(1))
    }
}

pub open spec fn text_order() -> spec_fn(Seq<char>, Seq<char>) -> bool {
    |a: Seq<char>, b: Seq<char>| comes_first(a, b)
}

/// The texts in order.
pub open spec fn sorted_texts(s: Seq<Seq<char>>) -> Seq<Seq<char>> {
    s.sort_by(text_order())
}

proof fn lemma_comes_first(a: Seq<char>, b: Seq<char>, c: Seq<char>)
    ensures
        comes_first(a, a),
        comes_first(a, b) && comes_first(b, a) ==> a == b,
        comes_first(a, b) || comes_first(b, a),
        comes_first(a, b) && comes_first(b, c) ==> comes_first(a, c),
    decreases a.len() + b.len() + c.len(),
{
    if a.len() > 0 && b.len() > 0 && c.len() > 0 {
        lemma_comes_first(a.skip(1), b.skip(1), c.skip(1));
        if a[0] == b[0] && a.skip(1) == b.skip(1) {
            assert(seq![a[0]] + a.skip(1) =~= a);
            assert(seq![b[0]] + b.skip(1) =~= b);
        }
    } else if a.len() > 0 && b.len() > 0 {
        lemma_comes_first(a.skip(1), b.skip(1), c);
        if a[0] == b[0] && a.skip(1) == b.skip(1) {
            assert(seq![a[0]] + a.skip(1) =~= a);
            assert(seq![b[0]] + b.skip(1) =~= b);
        }
    } else {
        if a.len() > 0 {
            lemma_comes_first(a.skip(1), b, c);
        }
        if a.len() == 0 && b.len() == 0 {
            assert(a =~= b);
        }
    }
}

pub proof fn lemma_text_order()
    ensures
        total_ordering(text_order()),
{
    let leq = text_order();
    assert forall|x: Seq<char>| #[trigger] leq(x, x) by {
        lemma_comes_first(x, x, x);
    }
    assert forall|x: Seq<char>, y: Seq<char>| #[trigger] leq(x, y) && #[trigger] leq(
        y,
        x,
    ) implies x == y by {
        lemma_comes_first(x, y, x);
    }
    assert forall|x: Seq<char>, y: Seq<char>, z: Seq<char>| #[trigger] leq(x, y)
        && #[trigger] leq(y, z) implies leq(x, z) by {
        lemma_comes_first(x, y, z);
    }
    assert forall|x: Seq<char>, y: Seq<char>| #[trigger] leq(x, y) || #[trigger] leq(y, x) by {
        lemma_comes_first(x, y, x);
    }
}

/// The order of the texts to be sorted does not matter.
pub proof fn sorting_forgets_the_order(a: Seq<Seq<char>>, b: Seq<Seq<char>>)
    requires
        a.to_multiset() == b.to_multiset(),
    ensures
        sorted_texts(a) == sorted_texts(b),
{
    let leq = text_order();
    lemma_text_order();
    a.lemma_sort_by_ensures(leq);
    b.lemma_sort_by_ensures(leq);
    lemma_sorted_unique(a.sort_by(leq), b.sort_by(leq), leq);
}

/// Whether `a` comes no later than `b`.
pub fn is_first(a: &str, b: &str) -> (r: bool)
    ensures
        r == comes_first(a@, b@),
{
    let v = to_chars(a);
    let w = to_chars(b);
    let mut i: usize = 0;
    assert(v@.skip(0) =~= v@);
    assert(w@.skip(0) =~= w@);
    loop
        invariant
            i <= v@.len(),
            i <= w@.len(),
            comes_first(v@.skip(i as int), w@.skip(i as int)) == comes_first(a@, b@),
        decreases v@.len() - i,
    {
        if i == v.len() {
            return true;
        }
        if i == w.len() {
            return false;
        }
        if v[i] != w[i] {
            return v[i] < w[i];
        }
        assert(v@.skip(i as int).skip(1) =~= v@.skip(i + 1));
        assert(w@.skip(i as int).skip(1) =~= w@.skip(i + 1));
        i = i + 1;
    }
}

proof fn lemma_insert_multiset<T>(s: Seq<T>, at: int, x: T)
    requires
        0 <= at <= s.len(),
    ensures
        s.insert(at, x).to_multiset() == s.to_multiset().insert(x),
{
    broadcast use vstd::seq_lib::group_to_multiset_ensures;

    let a = s.take(at);
    let b = s.skip(at);
    assert(s.insert(at, x) =~= a.push(x) + b);
    assert(s =~= a + b);
    lemma_multiset_commutative(a.push(x), b);
    lemma_multiset_commutative(a, b);
    assert(s.insert(at, x).to_multiset() =~= s.to_multiset().insert(x));
}

/// The texts in order.
pub fn sort_texts(v: &Vec<String>) -> (r: Vec<String>)
    ensures
        views(r@) == sorted_texts(views(v@)),
{
    let ghost all = views(v@);
    let ghost leq = text_order();
    let mut r: Vec<String> = Vec::new();
    let mut i: usize = 0;
    proof {
        lemma_text_order();
        assert(views(r@) =~= all.take(0));
    }
    while i < v.len()
        invariant
            i <= v@.len(),
            all == views(v@),
            leq == text_order(),
            total_ordering(leq),
            sorted_by(views(r@), leq),
            views(r@).to_multiset() == all.take(i as int).to_multiset(),
        decreases v@.len() - i,
    {
        let s = v[i].clone();
        let ghost before = views(r@);
        let ghost x = s@;
        let mut at: usize = r.len();
        assert(before.len() == r@.len());
        while at > 0 && !is_first(r[at - 1].as_str(), s.as_str())
            invariant
                at <= r@.len(),
                before == views(r@),
                before.len() == r@.len(),
                x == s@,
                leq == text_order(),
                total_ordering(leq),
                sorted_by(before, leq),
                forall|k: int| at <= k < before.len() ==> #[trigger] leq(x, before[k]),
            decreases at,
        {
            assert(before[at - 1] == r@[at - 1]@);
            assert(leq(x, before[at - 1]) || leq(before[at - 1], x));
            at = at - 1;
        }
        proof {
            if at > 0 {
                assert(before[at - 1] == r@[at - 1]@);
                assert(leq(before[at - 1], x));
            }
            let after = before.insert(at as int, x);
            assert forall|a: int, b: int| 0 <= a < b < after.len() implies #[trigger] leq(
                after[a],
                after[b],
            ) by {
                if b < at {
                    assert(leq(before[a], before[b]));
                } else if b == at {
                    if a < at - 1 {
                        assert(leq(before[a], before[at - 1]));
                    }
                } else if a < at {
                    assert(leq(before[a], before[b - 1]));
                } else if a == at {
                    assert(leq(x, before[b - 1]));
                } else {
                    assert(leq(before[a - 1], before[b - 1]));
                }
            }
            lemma_insert_multiset(before, at as int, x);
            assert(all.take(i + 1) =~= all.take(i as int).push(x));
            broadcast use vstd::seq_lib::group_to_multiset_ensures;

        }
        r.insert(at, s);
        assert(views(r@) =~= before.insert(at as int, x));
        i = i + 1;
    }
    proof {
        assert(all.take(all.len() as int) =~= all);
        all.lemma_sort_by_ensures(leq);
        lemma_sorted_unique(views(r@), all.sort_by(leq), leq);
    }
    r
}

} // verus!
