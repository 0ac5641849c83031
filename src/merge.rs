//! Merging adjacent branches that differ only in classes.
use vstd::prelude::*;
use vstd::seq_lib::lemma_flatten_concat;
use crate::classes::{
    tokens, class_text, class_union_spec, class_union, split_into_classes_and_chars, lemma_tokens,
    render_flags, ordered_digits, digit_char,
};
use crate::syntax::{
    views, bars, bar_free, branches_of, join_branches, split_exec, join_exec, strip_anchors_exec,
    append_chars, lemma_bars_concat, lemma_bars_zero,
};
use crate::order::text_eq;

verus! {

/// Two branches merge when their atoms line up one for one and every pair of
/// atoms is equal or made of two classes.
pub open spec fn mergeable(a: Seq<char>, b: Seq<char>) -> bool {
    let ta = tokens(a);
    let tb = tokens(b);
    ta.len() == tb.len() && forall|i: int|
        0 <= i < ta.len() ==> (#[trigger] ta[i] == tb[i] || (class_text(ta[i]) && class_text(
            tb[i],
        )))
}

/// Atoms taken from `ta` where they agree with `tb`, the union elsewhere.
pub open spec fn merged_tokens(ta: Seq<Seq<char>>, tb: Seq<Seq<char>>) -> Seq<Seq<char>> {
    Seq::new(ta.len(), |i: int| if ta[i] == tb[i] { ta[i] } else { class_union_spec(ta[i], tb[i]) })
}

/// One branch standing for two mergeable ones.
pub open spec fn merge_pair(a: Seq<char>, b: Seq<char>) -> Seq<char> {
    merged_tokens(tokens(a), tokens(b)).flatten()
}

/// One walk over adjacent pairs: an equal pair collapses, a mergeable pair
/// merges, and the walk goes on after the pair.
pub open spec fn merge_once(bs: Seq<Seq<char>>) -> Seq<Seq<char>>
    decreases bs.len(),
{
    if bs.len() < 2 {
        bs
    } else if bs[0] == bs[1] {
        seq![bs[0]] + merge_once(bs.skip(2))
    } else if mergeable(bs[0], bs[1]) {
        seq![merge_pair(bs[0], bs[1])] + merge_once(bs.skip(2))
    } else {
        seq![bs[0]] + merge_once(bs.drop_first())
    }
}

pub proof fn lemma_merge_once_len(bs: Seq<Seq<char>>)
    ensures
        merge_once(bs).len() <= bs.len(),
        merge_once(bs).len() == bs.len() ==> merge_once(bs) == bs,
    decreases bs.len(),
{
    if bs.len() >= 2 {
        if bs[0] == bs[1] || mergeable(bs[0], bs[1]) {
            lemma_merge_once_len(bs.skip(2));
        } else {
            lemma_merge_once_len(bs.drop_first());
            assert(seq![bs[0]] + bs.drop_first() =~= bs);
        }
    }
}

/// Walks repeated until no pair merges.
pub open spec fn merge_fix(bs: Seq<Seq<char>>) -> Seq<Seq<char>>
    decreases bs.len(),
{
    let m = merge_once(bs);
    if m.len() < bs.len() {
        merge_fix(m)
    } else {
        bs
    }
}

/// The class-merge pass on a whole pattern.
pub open spec fn merge_into_classes_spec(s: Seq<char>) -> Seq<char> {
    let bs = branches_of(s);
    if bs.len() <= 1 {
        s
    } else {
        join_branches(merge_fix(bs))
    }
}

proof fn lemma_flatten_bars(t: Seq<Seq<char>>)
    ensures
        bars(t.flatten()) == 0 <==> forall|i: int| 0 <= i < t.len() ==> bars(#[trigger] t[i]) == 0,
    decreases t.len(),
{
    if t.len() > 0 {
        lemma_flatten_bars(t.drop_first());
        lemma_bars_concat(t[0], t.drop_first().flatten());
        if bars(t.flatten()) == 0 {
            assert forall|i: int| 0 <= i < t.len() implies bars(#[trigger] t[i]) == 0 by {
                if i > 0 {
                    assert(t[i] == t.drop_first()[i - 1]);
                }
            }
        }
        if forall|i: int| 0 <= i < t.len() ==> bars(#[trigger] t[i]) == 0 {
            assert forall|i: int| 0 <= i < t.drop_first().len() implies bars(
                #[trigger] t.drop_first()[i],
            ) == 0 by {
                assert(t.drop_first()[i] == t[i + 1]);
            }
        }
    }
}

proof fn lemma_render_no_bar(h0: bool, h1: bool, h2: bool, h3: bool)
    ensures
        bars(render_flags(h0, h1, h2, h3)) == 0,
{
    let o = ordered_digits(h0, h1, h2, h3);
    assert forall|i: int| 0 <= i < o.len() implies digit_char(o[i]) by {}
    let r = render_flags(h0, h1, h2, h3);
    assert forall|i: int| 0 <= i < r.len() implies r[i] != '|' by {
        if o.len() != 4 && o.len() != 1 {
            if 0 < i < r.len() - 1 {
                assert(r[i] == o[i - 1]);
            }
        }
    }
    lemma_bars_zero(r);
}

pub proof fn lemma_merge_pair_bar_free(a: Seq<char>, b: Seq<char>)
    requires
        bars(a) == 0,
        mergeable(a, b),
    ensures
        bars(merge_pair(a, b)) == 0,
{
    let ta = tokens(a);
    let tb = tokens(b);
    lemma_tokens(a);
    lemma_flatten_bars(ta);
    let m = merged_tokens(ta, tb);
    assert forall|i: int| 0 <= i < m.len() implies bars(#[trigger] m[i]) == 0 by {
        if ta[i] != tb[i] {
            let u = crate::classes::class_digits(ta[i]).union(crate::classes::class_digits(tb[i]));
            lemma_render_no_bar(u.contains('0'), u.contains('1'), u.contains('2'), u.contains('3'));
        }
    }
    lemma_flatten_bars(m);
}

pub proof fn lemma_merge_once_bar_free(bs: Seq<Seq<char>>)
    requires
        bar_free(bs),
    ensures
        bar_free(merge_once(bs)),
    decreases bs.len(),
{
    if bs.len() >= 2 {
        let rest = if bs[0] == bs[1] || mergeable(bs[0], bs[1]) {
            bs.skip(2)
        } else {
            bs.drop_first()
        };
        assert(bar_free(rest)) by {
            assert forall|i: int| 0 <= i < rest.len() implies bars(#[trigger] rest[i]) == 0 by {
                if bs[0] == bs[1] || mergeable(bs[0], bs[1]) {
                    assert(rest[i] == bs[i + 2]);
                } else {
                    assert(rest[i] == bs[i + 1]);
                }
            }
        }
        lemma_merge_once_bar_free(rest);
        assert(bars(bs[0]) == 0);
        if bs[0] != bs[1] && mergeable(bs[0], bs[1]) {
            lemma_merge_pair_bar_free(bs[0], bs[1]);
        }
        let r = merge_once(bs);
        assert forall|i: int| 0 <= i < r.len() implies bars(#[trigger] r[i]) == 0 by {
            if i > 0 {
                assert(r[i] == merge_once(rest)[i - 1]);
            }
        }
    }
}

pub proof fn lemma_merge_fix(bs: Seq<Seq<char>>)
    ensures
        merge_fix(bs).len() <= bs.len(),
        merge_fix(bs).len() == bs.len() ==> merge_fix(bs) == bs,
        bar_free(bs) ==> bar_free(merge_fix(bs)),
        bs.len() > 0 ==> merge_fix(bs).len() > 0,
    decreases bs.len(),
{
    let m = merge_once(bs);
    lemma_merge_once_len(bs);
    if bar_free(bs) {
        lemma_merge_once_bar_free(bs);
    }
    if m.len() < bs.len() {
        lemma_merge_fix(m);
        if bs.len() > 0 {
            lemma_merge_once_nonempty(bs);
        }
    }
}

proof fn lemma_merge_once_nonempty(bs: Seq<Seq<char>>)
    requires
        bs.len() > 0,
    ensures
        merge_once(bs).len() > 0,
{
}

fn contains_index(v: &Vec<usize>, i: usize) -> (r: bool)
    ensures
        r == v@.contains(i),
{
    let mut k: usize = 0;
    while k < v.len()
        invariant
            k <= v@.len(),
            forall|j: int| 0 <= j < k ==> v@[j] != i,
        decreases v.len() - k,
    {
        if v[k] == i {
            return true;
        }
        k = k + 1;
    }
    false
}

/// The positions where both atoms are classes, ascending, provided the two
/// atom lists have the same length and differ only at such positions.
pub fn class_mismatch_indices(
    first_classes_and_chars: &Vec<Vec<char>>,
    second_classes_and_chars: &Vec<Vec<char>>,
) -> (r: Option<Vec<usize>>)
    ensures
        r is Some <==> ({
            let ta = views(first_classes_and_chars@);
            let tb = views(second_classes_and_chars@);
            ta.len() == tb.len() && forall|i: int|
                0 <= i < ta.len() ==> (#[trigger] ta[i] == tb[i] || (class_text(ta[i])
                    && class_text(tb[i])))
        }),
        r matches Some(idx) ==> forall|i: int|
            0 <= i < first_classes_and_chars@.len() ==> (idx@.contains(i as usize) <==> (
            class_text(#[trigger] views(first_classes_and_chars@)[i]) && class_text(
                views(second_classes_and_chars@)[i],
            ))),
        r matches Some(idx) ==> forall|a: int, b: int|
            0 <= a < b < idx@.len() ==> #[trigger] idx@[a] < #[trigger] idx@[b],
        r matches Some(idx) ==> forall|k: int|
            0 <= k < idx@.len() ==> #[trigger] idx@[k] < first_classes_and_chars@.len(),
{
    let ghost ta = views(first_classes_and_chars@);
    let ghost tb = views(second_classes_and_chars@);
    if first_classes_and_chars.len() != second_classes_and_chars.len() {
        return None;
    }
    let n = first_classes_and_chars.len();
    let mut result: Vec<usize> = Vec::new();
    let mut i: usize = 0;
    while i < n
        invariant
            i <= n == ta.len() == tb.len(),
            ta == views(first_classes_and_chars@),
            tb == views(second_classes_and_chars@),
            forall|j: int| 0 <= j < i ==> (#[trigger] ta[j] == tb[j] || (class_text(ta[j]) && class_text(tb[j]))),
            forall|j: int| 0 <= j < i ==> (#[trigger] result@.contains(j as usize) <==> (class_text(ta[j]) && class_text(tb[j]))),
            forall|k: int| 0 <= k < result@.len() ==> #[trigger] result@[k] < i,
            forall|a: int, b: int| 0 <= a < b < result@.len() ==> #[trigger] result@[a] < #[trigger] result@[b],
        decreases n - i,
    {
        let a = &first_classes_and_chars[i];
        let b = &second_classes_and_chars[i];
        assert(ta[i as int] == a@ && tb[i as int] == b@);
        let both = crate::classes::is_class(a) && crate::classes::is_class(b);
        if both {
            let ghost before = result@;
            result.push(i);
            assert forall|j: int| 0 <= j < i + 1 implies (#[trigger] result@.contains(j as usize) <==> (class_text(
                ta[j],
            ) && class_text(tb[j]))) by {
                if j < i {
                    if result@.contains(j as usize) {
                        let k = choose|k: int| 0 <= k < result@.len() && result@[k] == j as usize;
                        if k < before.len() {
                            assert(before.contains(j as usize));
                        }
                    }
                    if before.contains(j as usize) {
                        let k = choose|k: int| 0 <= k < before.len() && before[k] == j as usize;
                        assert(result@[k] == j as usize);
                    }
                } else {
                    assert(result@[before.len() as int] == i);
                }
            }
        } else {
            if !text_eq(a, b) {
                return None;
            }
            assert(!result@.contains(i)) by {
                if result@.contains(i) {
                    let k = choose|k: int| 0 <= k < result@.len() && result@[k] == i;
                }
            }
            assert forall|j: int| 0 <= j < i + 1 implies (#[trigger] result@.contains(j as usize) <==> (class_text(
                ta[j],
            ) && class_text(tb[j]))) by {
                if j == i {
                    assert(!(class_text(ta[j]) && class_text(tb[j])));
                }
            }
        }
        i = i + 1;
    }
    Some(result)
}

/// Concatenates the atoms, replacing each differing pair of classes at `idx`
/// by their union.
fn build_merged(ta: &Vec<Vec<char>>, tb: &Vec<Vec<char>>, idx: &Vec<usize>) -> (r: Vec<char>)
    requires
        ta@.len() == tb@.len(),
        forall|i: int|
            0 <= i < ta@.len() ==> (#[trigger] views(ta@)[i] == views(tb@)[i] || idx@.contains(
                i as usize,
            )),
    ensures
        r@ == merged_tokens(views(ta@), views(tb@)).flatten(),
{
    let ghost m = merged_tokens(views(ta@), views(tb@));
    let mut out: Vec<char> = Vec::new();
    let mut i: usize = 0;
    assert(m.take(0).flatten() =~= Seq::<char>::empty());
    while i < ta.len()
        invariant
            i <= ta@.len() == tb@.len() == m.len(),
            m == merged_tokens(views(ta@), views(tb@)),
            forall|j: int|
                0 <= j < ta@.len() ==> (#[trigger] views(ta@)[j] == views(tb@)[j] || idx@.contains(
                    j as usize,
                )),
            out@ == m.take(i as int).flatten(),
        decreases ta.len() - i,
    {
        let ghost before = out@;
        assert(views(ta@)[i as int] == ta@[i as int]@ && views(tb@)[i as int] == tb@[i as int]@);
        if contains_index(idx, i) && !text_eq(&ta[i], &tb[i]) {
            let u = class_union(&ta[i], &tb[i]);
            append_chars(&mut out, &u);
        } else {
            append_chars(&mut out, &ta[i]);
        }
        proof {
            lemma_flatten_concat(m.take(i as int), seq![m[i as int]]);
            assert(m.take(i as int + 1) =~= m.take(i as int) + seq![m[i as int]]);
            seq![m[i as int]].lemma_flatten_one_element();
        }
        i = i + 1;
    }
    assert(m.take(ta.len() as int) =~= m);
    out
}

/// One walk over adjacent pairs (see [`merge_once`]).
fn merge_into_classes_once(bs: &Vec<Vec<char>>) -> (r: Vec<Vec<char>>)
    ensures
        views(r@) == merge_once(views(bs@)),
{
    let ghost v = views(bs@);
    let n = bs.len();
    let mut out: Vec<Vec<char>> = Vec::new();
    let mut i: usize = 0;
    assert(v.skip(0) =~= v);
    assert(views(out@) =~= Seq::<Seq<char>>::empty());
    while i < n
        invariant
            i <= n == bs@.len(),
            v == views(bs@),
            merge_once(v) == views(out@) + merge_once(v.skip(i as int)),
        decreases n - i,
    {
        let ghost rest = v.skip(i as int);
        let ghost before = views(out@);
        let mut step: usize = 1;
        if i + 1 < n {
            assert(rest[0] == v[i as int] && rest[1] == v[i + 1]);
            if text_eq(&bs[i], &bs[i + 1]) {
                out.push(bs[i].clone());
                step = 2;
            } else {
                let ta = split_into_classes_and_chars(&bs[i]);
                let tb = split_into_classes_and_chars(&bs[i + 1]);
                match class_mismatch_indices(&ta, &tb) {
                    Some(idx) => {
                        let merged = build_merged(&ta, &tb, &idx);
                        assert(merged_tokens(views(ta@), views(tb@)) =~= merged_tokens(
                            tokens(v[i as int]),
                            tokens(v[i + 1]),
                        ));
                        out.push(merged);
                        step = 2;
                    },
                    None => {
                        out.push(bs[i].clone());
                    },
                }
            }
        } else {
            out.push(bs[i].clone());
        }
        assert(views(out@) =~= before.push(views(out@).last()));
        assert(rest.skip(step as int) =~= v.skip(i + step));
        assert(rest.drop_first() =~= v.skip(i + 1));
        i = i + step;
    }
    assert(v.skip(n as int) =~= Seq::<Seq<char>>::empty());
    assert(views(out@) + Seq::<Seq<char>>::empty() =~= views(out@));
    out
}

/// Merges adjacent branches until no pair merges (see [`merge_fix`]).
fn merge_fix_exec(bs: Vec<Vec<char>>) -> (r: Vec<Vec<char>>)
    ensures
        views(r@) == merge_fix(views(bs@)),
{
    let mut cur = bs;
    loop
        invariant
            merge_fix(views(bs@)) == merge_fix(views(cur@)),
        decreases cur@.len(),
    {
        let m = merge_into_classes_once(&cur);
        if m.len() < cur.len() {
            cur = m;
        } else {
            return cur;
        }
    }
}

/// The class-merge pass (see [`merge_into_classes_spec`]).
pub fn merge_into_classes_chars(s: &Vec<char>) -> (r: Vec<char>)
    ensures
        r@ == merge_into_classes_spec(s@),
{
    let body = strip_anchors_exec(s);
    let bs = split_exec(&body);
    if bs.len() <= 1 {
        return s.clone();
    }
    let merged = merge_fix_exec(bs);
    join_exec(&merged)
}

/// The class-merge pass (see [`merge_into_classes_spec`]).
pub fn merge_into_classes(regex: &str) -> (r: String)
    ensures
        r@ == merge_into_classes_spec(regex@),
{
    let v = crate::syntax::chars_of(regex);
    let r = merge_into_classes_chars(&v);
    crate::syntax::string_of(&r)
}

} // verus!
