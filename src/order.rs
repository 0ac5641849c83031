//! Lexicographic order on branch texts, and sorting with duplicates removed.
use vstd::prelude::*;
use crate::syntax::{views, total_len, bar_free, bars};

verus! {

/// Lexicographic order by character code.
pub open spec fn text_lt(a: Seq<char>, b: Seq<char>) -> bool
    decreases a.len(),
{
    if b.len() == 0 {
        false
    } else if a.len() == 0 {
        true
    } else if a[0] != b[0] {
        a[0] < b[0]
    } else {
        text_lt(a.drop_first(), b.drop_first())
    }
}

/// Every branch is less than the next: sorted, without duplicates.
pub open spec fn strictly_sorted(bs: Seq<Seq<char>>) -> bool {
    forall|i: int, j: int| 0 <= i < j < bs.len() ==> text_lt(#[trigger] bs[i], #[trigger] bs[j])
}

/// `x` put in its place in a sorted list, unless it is there already.
pub open spec fn insert_sorted(x: Seq<char>, bs: Seq<Seq<char>>) -> Seq<Seq<char>>
    decreases bs.len(),
{
    if bs.len() == 0 {
        seq![x]
    } else if bs[0] == x {
        bs
    } else if text_lt(x, bs[0]) {
        seq![x] + bs
    } else {
        seq![bs[0]] + insert_sorted(x, bs.drop_first())
    }
}

/// The distinct branches of `bs`, ascending.
pub open spec fn sort_dedup(bs: Seq<Seq<char>>) -> Seq<Seq<char>>
    decreases bs.len(),
{
    if bs.len() == 0 {
        bs
    } else {
        insert_sorted(bs.last(), sort_dedup(bs.drop_last()))
    }
}

pub proof fn lemma_lt_irreflexive(a: Seq<char>)
    ensures
        !text_lt(a, a),
    decreases a.len(),
{
    if a.len() > 0 {
        lemma_lt_irreflexive(a.drop_first());
    }
}

pub proof fn lemma_lt_total(a: Seq<char>, b: Seq<char>)
    ensures
        a != b ==> text_lt(a, b) || text_lt(b, a),
        !(text_lt(a, b) && text_lt(b, a)),
    decreases a.len(),
{
    if a.len() > 0 && b.len() > 0 {
        lemma_lt_total(a.drop_first(), b.drop_first());
        if a[0] == b[0] && a != b {
            assert(a =~= seq![a[0]] + a.drop_first());
            assert(b =~= seq![b[0]] + b.drop_first());
        }
    } else if a.len() == 0 && b.len() == 0 {
        assert(a =~= b);
    }
}

pub proof fn lemma_lt_trans(a: Seq<char>, b: Seq<char>, c: Seq<char>)
    requires
        text_lt(a, b),
        text_lt(b, c),
    ensures
        text_lt(a, c),
    decreases a.len(),
{
    if a.len() > 0 && b.len() > 0 && c.len() > 0 {
        if a[0] == b[0] && b[0] == c[0] {
            lemma_lt_trans(a.drop_first(), b.drop_first(), c.drop_first());
        }
    }
}

pub proof fn lemma_insert_sorted(x: Seq<char>, bs: Seq<Seq<char>>)
    requires
        strictly_sorted(bs),
    ensures
        strictly_sorted(insert_sorted(x, bs)),
        forall|y: Seq<char>|
            #[trigger] insert_sorted(x, bs).contains(y) <==> (y == x || bs.contains(y)),
        bs.contains(x) ==> insert_sorted(x, bs) == bs,
        !bs.contains(x) ==> insert_sorted(x, bs).len() == bs.len() + 1 && total_len(
            insert_sorted(x, bs),
        ) == total_len(bs) + x.len(),
    decreases bs.len(),
{
    let r = insert_sorted(x, bs);
    if bs.len() == 0 {
        assert forall|y: Seq<char>| #[trigger] r.contains(y) <==> (y == x || bs.contains(y)) by {
            if y == x {
                assert(r[0] == y);
            }
        }
        lemma_total_len_prepend(x, bs);
    } else if bs[0] == x {
        assert(bs.contains(x));
    } else if text_lt(x, bs[0]) {
        assert forall|i: int, j: int| 0 <= i < j < r.len() implies text_lt(
            #[trigger] r[i],
            #[trigger] r[j],
        ) by {
            if i == 0 {
                if j > 1 {
                    lemma_lt_trans(x, bs[0], bs[j - 1]);
                }
            } else {
                assert(r[i] == bs[i - 1] && r[j] == bs[j - 1]);
            }
        }
        assert forall|y: Seq<char>| #[trigger] r.contains(y) <==> (y == x || bs.contains(y)) by {
            if r.contains(y) {
                let k = choose|k: int| 0 <= k < r.len() && r[k] == y;
                if k > 0 {
                    assert(bs[k - 1] == y);
                }
            }
            if y == x {
                assert(r[0] == y);
            }
            if bs.contains(y) {
                let k = choose|k: int| 0 <= k < bs.len() && bs[k] == y;
                assert(r[k + 1] == y);
            }
        }
        if bs.contains(x) {
            let k = choose|k: int| 0 <= k < bs.len() && bs[k] == x;
            if k > 0 {
                lemma_lt_trans(x, bs[0], bs[k]);
            }
            lemma_lt_irreflexive(x);
        }
        lemma_total_len_prepend(x, bs);
    } else {
        let t = bs.drop_first();
        assert(strictly_sorted(t)) by {
            assert forall|i: int, j: int| 0 <= i < j < t.len() implies text_lt(
                #[trigger] t[i],
                #[trigger] t[j],
            ) by {
                assert(t[i] == bs[i + 1] && t[j] == bs[j + 1]);
            }
        }
        lemma_insert_sorted(x, t);
        lemma_lt_total(x, bs[0]);
        let it = insert_sorted(x, t);
        assert(r == seq![bs[0]] + it);
        assert forall|i: int, j: int| 0 <= i < j < r.len() implies text_lt(
            #[trigger] r[i],
            #[trigger] r[j],
        ) by {
            if i == 0 {
                assert(r[j] == it[j - 1]);
                assert(it.contains(it[j - 1]));
                if it[j - 1] != x {
                    let k = choose|k: int| 0 <= k < t.len() && t[k] == it[j - 1];
                    assert(bs[k + 1] == t[k]);
                }
            } else {
                assert(r[i] == it[i - 1] && r[j] == it[j - 1]);
            }
        }
        assert forall|y: Seq<char>| #[trigger] r.contains(y) <==> (y == x || bs.contains(y)) by {
            if r.contains(y) {
                let k = choose|k: int| 0 <= k < r.len() && r[k] == y;
                if k > 0 {
                    assert(it[k - 1] == y);
                    assert(it.contains(y));
                    if t.contains(y) {
                        let k2 = choose|k2: int| 0 <= k2 < t.len() && t[k2] == y;
                        assert(bs[k2 + 1] == y);
                    }
                }
            }
            if y == x {
                assert(it.contains(y));
                let k = choose|k: int| 0 <= k < it.len() && it[k] == y;
                assert(r[k + 1] == y);
            }
            if bs.contains(y) {
                let k = choose|k: int| 0 <= k < bs.len() && bs[k] == y;
                if k > 0 {
                    assert(t[k - 1] == y);
                    assert(it.contains(y));
                    let k2 = choose|k2: int| 0 <= k2 < it.len() && it[k2] == y;
                    assert(r[k2 + 1] == y);
                } else {
                    assert(r[0] == y);
                }
            }
        }
        if bs.contains(x) {
            let k = choose|k: int| 0 <= k < bs.len() && bs[k] == x;
            assert(k > 0);
            assert(t[k - 1] == x);
            assert(bs =~= seq![bs[0]] + t);
        }
        if !bs.contains(x) {
            assert(!t.contains(x)) by {
                if t.contains(x) {
                    let k = choose|k: int| 0 <= k < t.len() && t[k] == x;
                    assert(bs[k + 1] == x);
                }
            }
            lemma_total_len_prepend(bs[0], it);
            lemma_total_len_prepend(bs[0], t);
            assert(bs =~= seq![bs[0]] + t);
        }
    }
}

pub proof fn lemma_total_len_prepend(x: Seq<char>, bs: Seq<Seq<char>>)
    ensures
        total_len(seq![x] + bs) == x.len() + total_len(bs),
    decreases bs.len(),
{
    if bs.len() == 0 {
        assert(seq![x] + bs =~= seq![x]);
        assert(seq![x].drop_last() =~= Seq::<Seq<char>>::empty());
        assert(total_len(seq![x]) == total_len(seq![x].drop_last()) + seq![x].last().len());
    } else {
        lemma_total_len_prepend(x, bs.drop_last());
        let c = seq![x] + bs;
        assert(c.drop_last() =~= seq![x] + bs.drop_last());
        assert(c.last() == bs.last());
        assert(total_len(c) == total_len(c.drop_last()) + c.last().len());
    }
}

pub proof fn lemma_sort_dedup(bs: Seq<Seq<char>>)
    ensures
        strictly_sorted(sort_dedup(bs)),
        forall|y: Seq<char>| #[trigger] sort_dedup(bs).contains(y) <==> bs.contains(y),
        sort_dedup(bs).len() <= bs.len(),
        sort_dedup(bs).len() == bs.len() ==> total_len(sort_dedup(bs)) == total_len(bs),
        bs.len() > 0 ==> sort_dedup(bs).len() > 0,
    decreases bs.len(),
{
    if bs.len() > 0 {
        let init = bs.drop_last();
        lemma_sort_dedup(init);
        let s0 = sort_dedup(init);
        lemma_insert_sorted(bs.last(), s0);
        assert forall|y: Seq<char>| #[trigger] sort_dedup(bs).contains(y) <==> bs.contains(y) by {
            if bs.contains(y) {
                let k = choose|k: int| 0 <= k < bs.len() && bs[k] == y;
                if k < bs.len() - 1 {
                    assert(init[k] == y);
                    assert(init.contains(y));
                }
            }
            if init.contains(y) {
                let k = choose|k: int| 0 <= k < init.len() && init[k] == y;
                assert(bs[k] == y);
            }
        }
        if s0.contains(bs.last()) {
        } else {
            assert(total_len(bs) == total_len(init) + bs.last().len());
        }
        assert(insert_sorted(bs.last(), s0).contains(bs.last()));
    }
}

/// Sorting a strictly sorted list changes nothing.
pub proof fn lemma_sort_dedup_sorted(bs: Seq<Seq<char>>)
    requires
        strictly_sorted(bs),
    ensures
        sort_dedup(bs) == bs,
    decreases bs.len(),
{
    if bs.len() > 0 {
        let init = bs.drop_last();
        assert(strictly_sorted(init)) by {
            assert forall|i: int, j: int| 0 <= i < j < init.len() implies text_lt(
                #[trigger] init[i],
                #[trigger] init[j],
            ) by {
                assert(init[i] == bs[i] && init[j] == bs[j]);
            }
        }
        lemma_sort_dedup_sorted(init);
        lemma_insert_last(bs.last(), init);
        assert(init.push(bs.last()) =~= bs);
    }
}

proof fn lemma_insert_last(x: Seq<char>, bs: Seq<Seq<char>>)
    requires
        forall|i: int| 0 <= i < bs.len() ==> text_lt(#[trigger] bs[i], x),
    ensures
        insert_sorted(x, bs) == bs.push(x),
    decreases bs.len(),
{
    if bs.len() == 0 {
        assert(seq![x] =~= bs.push(x));
    } else {
        lemma_lt_total(bs[0], x);
        lemma_lt_irreflexive(x);
        let t = bs.drop_first();
        assert forall|i: int| 0 <= i < t.len() implies text_lt(#[trigger] t[i], x) by {
            assert(t[i] == bs[i + 1]);
        }
        lemma_insert_last(x, t);
        assert(seq![bs[0]] + t.push(x) =~= bs.push(x));
    }
}

/// Sorted lists of bar-free branches stay bar-free.
pub proof fn lemma_sort_dedup_bar_free(bs: Seq<Seq<char>>)
    requires
        bar_free(bs),
    ensures
        bar_free(sort_dedup(bs)),
{
    lemma_sort_dedup(bs);
    let r = sort_dedup(bs);
    assert forall|i: int| 0 <= i < r.len() implies bars(#[trigger] r[i]) == 0 by {
        assert(r.contains(r[i]));
        assert(bs.contains(r[i]));
        let k = choose|k: int| 0 <= k < bs.len() && bs[k] == r[i];
    }
}

/// Whether `a` comes before `b`.
pub fn text_lt_exec(a: &Vec<char>, b: &Vec<char>) -> (r: bool)
    ensures
        r == text_lt(a@, b@),
{
    let mut i: usize = 0;
    assert(a@.skip(0) =~= a@ && b@.skip(0) =~= b@);
    while i < a.len() && i < b.len() && a[i] == b[i]
        invariant
            i <= a@.len(),
            i <= b@.len(),
            text_lt(a@, b@) == text_lt(a@.skip(i as int), b@.skip(i as int)),
        decreases a.len() - i,
    {
        assert(a@.skip(i as int).drop_first() =~= a@.skip(i as int + 1));
        assert(b@.skip(i as int).drop_first() =~= b@.skip(i as int + 1));
        i = i + 1;
    }
    if i >= b.len() {
        false
    } else if i >= a.len() {
        true
    } else {
        a[i] < b[i]
    }
}

/// Whether two texts are equal.
pub fn text_eq(a: &Vec<char>, b: &Vec<char>) -> (r: bool)
    ensures
        r == (a@ == b@),
{
    if a.len() != b.len() {
        return false;
    }
    let mut i: usize = 0;
    while i < a.len()
        invariant
            i <= a@.len() == b@.len(),
            forall|k: int| 0 <= k < i ==> a@[k] == b@[k],
        decreases a.len() - i,
    {
        if a[i] != b[i] {
            return false;
        }
        i = i + 1;
    }
    assert(a@ =~= b@);
    true
}

proof fn lemma_insert_at(x: Seq<char>, bs: Seq<Seq<char>>, j: int)
    requires
        0 <= j <= bs.len(),
        forall|k: int| 0 <= k < j ==> text_lt(#[trigger] bs[k], x),
        j < bs.len() ==> !text_lt(bs[j], x),
    ensures
        insert_sorted(x, bs) == if j < bs.len() && bs[j] == x {
            bs
        } else {
            bs.insert(j, x)
        },
    decreases j,
{
    if j == 0 {
        if bs.len() == 0 {
            assert(bs.insert(0, x) =~= seq![x]);
        } else {
            lemma_lt_total(x, bs[0]);
            assert(bs.insert(0, x) =~= seq![x] + bs);
        }
    } else {
        lemma_lt_total(x, bs[0]);
        lemma_lt_irreflexive(x);
        let t = bs.drop_first();
        assert forall|k: int| 0 <= k < j - 1 implies text_lt(#[trigger] t[k], x) by {
            assert(t[k] == bs[k + 1]);
        }
        lemma_insert_at(x, t, j - 1);
        if j < bs.len() && bs[j] == x {
            assert(seq![bs[0]] + t =~= bs);
        } else {
            assert(seq![bs[0]] + t.insert(j - 1, x) =~= bs.insert(j, x));
        }
    }
}

/// Puts `x` into the sorted list `out`, unless it is there already.
fn insert_sorted_exec(out: &mut Vec<Vec<char>>, x: Vec<char>)
    ensures
        views(final(out)@) == insert_sorted(x@, views(old(out)@)),
{
    let ghost v = views(out@);
    let mut j: usize = 0;
    while j < out.len() && text_lt_exec(&out[j], &x)
        invariant
            j <= out@.len(),
            v == views(out@),
            forall|k: int| 0 <= k < j ==> text_lt(#[trigger] v[k], x@),
        decreases out.len() - j,
    {
        j = j + 1;
    }
    proof {
        lemma_insert_at(x@, v, j as int);
    }
    if j < out.len() && text_eq(&out[j], &x) {
    } else {
        let ghost xv = x@;
        out.insert(j, x);
        assert(views(out@) =~= v.insert(j as int, xv));
    }
}

/// The distinct branches, ascending.
pub fn sort_dedup_exec(bs: Vec<Vec<char>>) -> (r: Vec<Vec<char>>)
    ensures
        views(r@) == sort_dedup(views(bs@)),
{
    let mut out: Vec<Vec<char>> = Vec::new();
    let mut k: usize = 0;
    let ghost v = views(bs@);
    assert(views(out@) =~= sort_dedup(v.take(0)));
    while k < bs.len()
        invariant
            k <= bs@.len(),
            v == views(bs@),
            views(out@) == sort_dedup(v.take(k as int)),
        decreases bs.len() - k,
    {
        let x = bs[k].clone();
        assert(x@ == v[k as int]);
        insert_sorted_exec(&mut out, x);
        assert(v.take(k as int + 1).drop_last() =~= v.take(k as int));
        k = k + 1;
    }
    assert(v.take(bs.len() as int) =~= v);
    out
}

} // verus!
