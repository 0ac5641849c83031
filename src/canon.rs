//! The canonicalizer: a pipeline of rewrite passes applied until the text no
//! longer changes.
//!
//! Termination is proved: every pass that changes the text lowers the number
//! of `|`, or keeps it and shortens the text, or keeps both and sorts branches
//! that were out of order.
use vstd::prelude::*;
use crate::classes::{tokens, class_text, lemma_tokens, split_into_classes_and_chars};
use crate::merge::{merge_into_classes_spec, merge_fix, lemma_merge_fix, merge_into_classes_chars};
use crate::order::{sort_dedup, strictly_sorted, lemma_sort_dedup, lemma_sort_dedup_sorted, lemma_sort_dedup_bar_free, sort_dedup_exec, text_eq};
use crate::parens::{remove_parens_spec, lemma_remove_parens, remove_parens_chars};
use crate::syntax::{
    bars, strip_anchors, split_branches, join_branches, branches_of, bar_free, total_len, views,
    lemma_bars_concat, lemma_split_basics, lemma_join_split, lemma_split_join, lemma_join_len,
    lemma_strip_anchors, split_exec, join_exec, strip_anchors_exec, append_chars, chars_of,
    string_of,
};

verus! {

/// Collapses `<atom><atom>*` into `<atom>+`, scanning left to right and going
/// on after each collapsed window.
pub open spec fn star_plus_tokens(t: Seq<Seq<char>>) -> Seq<char>
    decreases t.len(),
{
    if t.len() < 3 {
        t.flatten()
    } else if t[0] == t[1] && t[2].len() > 0 && t[2][0] == '*' {
        t[0].push('+') + star_plus_tokens(t.skip(3))
    } else {
        t[0] + star_plus_tokens(t.drop_first())
    }
}

/// The star-to-plus pass on a whole text.
pub open spec fn star_to_plus_spec(s: Seq<char>) -> Seq<char> {
    star_plus_tokens(tokens(s))
}

/// A branch that is a class followed by `+`.
pub open spec fn plus_class(b: Seq<char>) -> bool {
    b.len() > 0 && b.last() == '+' && class_text(b.drop_last())
}

/// The first index from `i` on of a [`plus_class`] branch, or the length.
pub open spec fn first_plus_class(bs: Seq<Seq<char>>, i: int) -> int
    decreases bs.len() - i,
{
    if i < 0 || i >= bs.len() {
        bs.len() as int
    } else if plus_class(bs[i]) {
        i
    } else {
        first_plus_class(bs, i + 1)
    }
}

pub open spec fn has_empty(bs: Seq<Seq<char>>) -> bool {
    exists|i: int| 0 <= i < bs.len() && #[trigger] bs[i].len() == 0
}

/// The branches that are not empty.
pub open spec fn drop_empty(bs: Seq<Seq<char>>) -> Seq<Seq<char>>
    decreases bs.len(),
{
    if bs.len() == 0 {
        bs
    } else {
        let init = drop_empty(bs.drop_last());
        if bs.last().len() == 0 {
            init
        } else {
            init.push(bs.last())
        }
    }
}

/// Empty-branch absorption: `X+|` becomes `X*` for the first branch that is a
/// class followed by `+`, and the empty branches go. Without such a branch
/// the empty branch stays.
pub open spec fn absorb_empty_spec(s: Seq<char>) -> Seq<char> {
    let bs = branches_of(s);
    if !has_empty(bs) {
        s
    } else {
        let k = first_plus_class(bs, 0);
        if k < bs.len() {
            join_branches(drop_empty(bs.update(k, bs[k].drop_last().push('*'))))
        } else {
            join_branches(bs)
        }
    }
}

/// Sort and dedupe: the branches, each without redundant parentheses, sorted,
/// with duplicates removed.
pub open spec fn sort_branches_spec(s: Seq<char>) -> Seq<char> {
    join_branches(sort_dedup(branches_of(s).map_values(|b: Seq<char>| remove_parens_spec(b))))
}

/// One full pass of the pipeline.
pub open spec fn simplify_once_spec(s: Seq<char>) -> Seq<char> {
    absorb_empty_spec(
        star_to_plus_spec(
            merge_into_classes_spec(sort_branches_spec(remove_parens_spec(s))),
        ),
    )
}

/// 0 when the `|`-separated pieces of `s` are strictly ascending, 1 otherwise.
pub open spec fn sorted_flag(s: Seq<char>) -> nat {
    if strictly_sorted(split_branches(s)) {
        0
    } else {
        1
    }
}

/// The canonical form: passes repeated until one changes nothing.
pub open spec fn canonicalize(s: Seq<char>) -> Seq<char>
    decreases bars(s), s.len(), sorted_flag(s),
    via canonicalize_decreases
{
    let t = simplify_once_spec(s);
    if t == s {
        s
    } else {
        canonicalize(t)
    }
}

#[via_fn]
proof fn canonicalize_decreases(s: Seq<char>) {
    lemma_pass_decreases(s);
}

/// `b` is no larger than `a`: fewer `|`, or as many and no more characters.
pub open spec fn reduces(a: Seq<char>, b: Seq<char>) -> bool {
    bars(b) < bars(a) || (bars(b) == bars(a) && b.len() <= a.len())
}

pub open spec fn same_size(a: Seq<char>, b: Seq<char>) -> bool {
    bars(a) == bars(b) && a.len() == b.len()
}

proof fn lemma_star_plus_tokens(t: Seq<Seq<char>>)
    requires
        forall|i: int| 0 <= i < t.len() ==> #[trigger] t[i].len() > 0,
    ensures
        star_plus_tokens(t).len() <= t.flatten().len(),
        star_plus_tokens(t).len() == t.flatten().len() ==> star_plus_tokens(t) == t.flatten(),
        bars(star_plus_tokens(t)) <= bars(t.flatten()),
    decreases t.len(),
{
    if t.len() >= 3 {
        let d1 = t.drop_first();
        let d2 = d1.drop_first();
        let d3 = d2.drop_first();
        assert(d3 =~= t.skip(3));
        assert(t.flatten() == t[0] + d1.flatten());
        assert(d1.flatten() == d1[0] + d2.flatten());
        assert(d2.flatten() == d2[0] + d3.flatten());
        assert(d1[0] == t[1] && d2[0] == t[2]);
        if t[0] == t[1] && t[2].len() > 0 && t[2][0] == '*' {
            let rest = t.skip(3);
            assert forall|i: int| 0 <= i < rest.len() implies #[trigger] rest[i].len() > 0 by {
                assert(rest[i] == t[i + 3]);
            }
            lemma_star_plus_tokens(rest);
            assert(t[0].len() > 0);
            lemma_bars_concat(t[0].push('+'), star_plus_tokens(rest));
            lemma_bars_concat(t[0], t[0].push('+'));
            lemma_bars_concat(t[0], seq!['+']);
            assert(t[0].push('+') =~= t[0] + seq!['+']);
            assert(seq!['+'].drop_last() =~= Seq::<char>::empty());
            assert(seq!['+'].last() == '+');
            assert(bars(seq!['+']) == bars(seq!['+'].drop_last()) + 0);
            lemma_bars_concat(t[0], d1.flatten());
            lemma_bars_concat(t[1], d2.flatten());
            lemma_bars_concat(t[2], d3.flatten());
        } else {
            assert forall|i: int| 0 <= i < d1.len() implies #[trigger] d1[i].len() > 0 by {
                assert(d1[i] == t[i + 1]);
            }
            lemma_star_plus_tokens(d1);
            lemma_bars_concat(t[0], star_plus_tokens(d1));
            lemma_bars_concat(t[0], d1.flatten());
        }
    }
}

proof fn lemma_star_to_plus(s: Seq<char>)
    ensures
        reduces(s, star_to_plus_spec(s)),
        same_size(s, star_to_plus_spec(s)) ==> star_to_plus_spec(s) == s,
{
    lemma_tokens(s);
    lemma_star_plus_tokens(tokens(s));
}

proof fn lemma_drop_empty(bs: Seq<Seq<char>>)
    ensures
        drop_empty(bs).len() <= bs.len(),
        has_empty(bs) ==> drop_empty(bs).len() < bs.len(),
        bar_free(bs) ==> bar_free(drop_empty(bs)),
    decreases bs.len(),
{
    if bs.len() > 0 {
        let init = bs.drop_last();
        lemma_drop_empty(init);
        if has_empty(bs) && bs.last().len() != 0 {
            let i = choose|i: int| 0 <= i < bs.len() && #[trigger] bs[i].len() == 0;
            assert(init[i].len() == 0);
        }
        if bar_free(bs) {
            assert(bar_free(init)) by {
                assert forall|i: int| 0 <= i < init.len() implies bars(#[trigger] init[i]) == 0 by {
                    assert(init[i] == bs[i]);
                }
            }
            let d = drop_empty(bs);
            assert forall|i: int| 0 <= i < d.len() implies bars(#[trigger] d[i]) == 0 by {
                if i < drop_empty(init).len() {
                    assert(d[i] == drop_empty(init)[i]);
                } else {
                    assert(d[i] == bs[bs.len() - 1]);
                }
            }
        }
    }
}

proof fn lemma_first_plus_class(bs: Seq<Seq<char>>, i: int)
    requires
        0 <= i <= bs.len(),
    ensures
        i <= first_plus_class(bs, i) <= bs.len(),
        first_plus_class(bs, i) < bs.len() ==> plus_class(bs[first_plus_class(bs, i)]),
    decreases bs.len() - i,
{
    if i < bs.len() && !plus_class(bs[i]) {
        lemma_first_plus_class(bs, i + 1);
    }
}

proof fn lemma_absorb_empty(s: Seq<char>)
    ensures
        reduces(s, absorb_empty_spec(s)),
        same_size(s, absorb_empty_spec(s)) ==> absorb_empty_spec(s) == s,
{
    let bs = branches_of(s);
    lemma_split_basics(strip_anchors(s));
    lemma_strip_anchors(s);
    if has_empty(bs) {
        let k = first_plus_class(bs, 0);
        lemma_first_plus_class(bs, 0);
        if k < bs.len() {
            let x = bs[k].drop_last().push('*');
            let u = bs.update(k, x);
            let i = choose|i: int| 0 <= i < bs.len() && #[trigger] bs[i].len() == 0;
            assert(u[i].len() == 0);
            assert(bars(x) == 0) by {
                assert(bars(bs[k]) == 0);
                assert(bs[k].drop_last().push('*').drop_last() =~= bs[k].drop_last());
            }
            assert(bar_free(u)) by {
                assert forall|j: int| 0 <= j < u.len() implies bars(#[trigger] u[j]) == 0 by {
                    if j != k {
                        assert(u[j] == bs[j]);
                    }
                }
            }
            lemma_drop_empty(u);
            let d = drop_empty(u);
            if d.len() >= 1 {
                lemma_join_len(d);
            }
        } else {
            lemma_join_split(strip_anchors(s));
        }
    }
}

proof fn lemma_merge_pass(s: Seq<char>)
    ensures
        reduces(s, merge_into_classes_spec(s)),
        same_size(s, merge_into_classes_spec(s)) ==> merge_into_classes_spec(s) == s,
{
    let bs = branches_of(s);
    lemma_split_basics(strip_anchors(s));
    lemma_strip_anchors(s);
    if bs.len() > 1 {
        lemma_merge_fix(bs);
        let m = merge_fix(bs);
        lemma_join_len(m);
        if m.len() == bs.len() {
            lemma_join_split(strip_anchors(s));
        }
    }
}

proof fn lemma_map_remove_parens(bs: Seq<Seq<char>>)
    ensures
        ({
            let m = bs.map_values(|b: Seq<char>| remove_parens_spec(b));
            &&& m.len() == bs.len()
            &&& total_len(m) <= total_len(bs)
            &&& total_len(m) == total_len(bs) ==> m == bs
            &&& bar_free(bs) ==> bar_free(m)
        }),
    decreases bs.len(),
{
    let m = bs.map_values(|b: Seq<char>| remove_parens_spec(b));
    if bs.len() > 0 {
        let init = bs.drop_last();
        lemma_map_remove_parens(init);
        let mi = init.map_values(|b: Seq<char>| remove_parens_spec(b));
        assert(m.drop_last() =~= mi);
        lemma_remove_parens(bs.last());
        assert(total_len(m) == total_len(mi) + m.last().len());
        if total_len(m) == total_len(bs) {
            assert(m =~= bs) by {
                assert(m.drop_last() == init);
                assert(m.last() == bs.last());
                assert(m =~= m.drop_last().push(m.last()));
                assert(bs =~= init.push(bs.last()));
            }
        }
        if bar_free(bs) {
            assert forall|i: int| 0 <= i < m.len() implies bars(#[trigger] m[i]) == 0 by {
                lemma_remove_parens(bs[i]);
            }
        }
    }
}

proof fn lemma_sort_pass(s: Seq<char>)
    ensures
        reduces(s, sort_branches_spec(s)),
        strictly_sorted(split_branches(sort_branches_spec(s))),
        same_size(s, sort_branches_spec(s)) && strictly_sorted(split_branches(s))
            ==> sort_branches_spec(s) == s,
        same_size(s, sort_branches_spec(s)) ==> strip_anchors(s) == s,
{
    let bs = branches_of(s);
    lemma_split_basics(strip_anchors(s));
    lemma_strip_anchors(s);
    lemma_map_remove_parens(bs);
    let m = bs.map_values(|b: Seq<char>| remove_parens_spec(b));
    lemma_sort_dedup(m);
    lemma_sort_dedup_bar_free(m);
    let d = sort_dedup(m);
    lemma_join_len(d);
    lemma_join_len(bs);
    lemma_split_join(d);
    if same_size(s, sort_branches_spec(s)) {
        assert(d.len() == bs.len());
        assert(total_len(d) == total_len(m));
        assert(m == bs);
        assert(strip_anchors(s) == s);
        if strictly_sorted(split_branches(s)) {
            lemma_sort_dedup_sorted(bs);
            lemma_join_split(s);
        }
    }
}

proof fn lemma_remove_pass(s: Seq<char>)
    ensures
        reduces(s, remove_parens_spec(s)),
        same_size(s, remove_parens_spec(s)) ==> remove_parens_spec(s) == s,
{
    lemma_remove_parens(s);
}

/// A pass that changes the text lowers the measure `bars`, length, sortedness.
pub proof fn lemma_pass_decreases(s: Seq<char>)
    ensures
        simplify_once_spec(s) != s ==> decreases_to!(bars(s), s.len(), sorted_flag(s) => bars(simplify_once_spec(s)), simplify_once_spec(s).len(), sorted_flag(simplify_once_spec(s))),
        simplify_once_spec(s) == s ==> strictly_sorted(split_branches(s)) && strip_anchors(s) == s,
{
    let a = remove_parens_spec(s);
    let b = sort_branches_spec(a);
    let c = merge_into_classes_spec(b);
    let d = star_to_plus_spec(c);
    let t = absorb_empty_spec(d);
    lemma_remove_pass(s);
    lemma_sort_pass(a);
    lemma_merge_pass(b);
    lemma_star_to_plus(c);
    lemma_absorb_empty(d);
    if same_size(s, t) {
        assert(same_size(s, a) && same_size(a, b) && same_size(b, c) && same_size(c, d) && same_size(d, t));
        assert(t == b);
        if strictly_sorted(split_branches(s)) {
            assert(b == s);
        }
    }
}

/// The canonical form is a fixed point of a pass.
pub proof fn lemma_canonicalize_fixed(s: Seq<char>)
    ensures
        simplify_once_spec(canonicalize(s)) == canonicalize(s),
    decreases bars(s), s.len(), sorted_flag(s),
{
    let t = simplify_once_spec(s);
    if t != s {
        lemma_pass_decreases(s);
        lemma_canonicalize_fixed(t);
    }
}

/// Canonicalizing a canonical text changes nothing: the canonicalizer is idempotent.
pub proof fn lemma_canonicalize_idempotent(p: Seq<char>)
    ensures
        canonicalize(canonicalize(p)) == canonicalize(p),
{
    lemma_canonicalize_fixed(p);
}

/// The branches of a canonical text are in strictly ascending order: sorted,
/// with no duplicates, and the text carries no anchors.
pub proof fn lemma_canonical_sorted(p: Seq<char>)
    ensures
        strictly_sorted(branches_of(canonicalize(p))),
        strip_anchors(canonicalize(p)) == canonicalize(p),
{
    lemma_canonicalize_fixed(p);
    lemma_pass_decreases(canonicalize(p));
}

/// Star-to-plus pass (see [`star_plus_tokens`]).
pub fn convert_star_to_plus_chars(s: &Vec<char>) -> (r: Vec<char>)
    ensures
        r@ == star_to_plus_spec(s@),
{
    let t = split_into_classes_and_chars(s);
    let ghost tv = views(t@);
    let n = t.len();
    let mut out: Vec<char> = Vec::new();
    let mut i: usize = 0;
    assert(tv.skip(0) =~= tv);
    while i < n
        invariant
            i <= n == t@.len(),
            tv == views(t@),
            star_plus_tokens(tv) == out@ + star_plus_tokens(tv.skip(i as int)),
        decreases n - i,
    {
        let ghost rest = tv.skip(i as int);
        let ghost before = out@;
        if n - i > 2 && text_eq(&t[i], &t[i + 1]) && t[i + 2].len() > 0 && t[i + 2][0] == '*' {
            assert(rest[0] == tv[i as int] && rest[1] == tv[i + 1] && rest[2] == tv[i + 2]);
            append_chars(&mut out, &t[i]);
            out.push('+');
            assert(rest.skip(3) =~= tv.skip(i + 3));
            assert(out@ =~= before + tv[i as int].push('+'));
            i = i + 3;
        } else {
            assert(rest[0] == tv[i as int]);
            assert(rest.drop_first() =~= tv.skip(i + 1));
            proof {
                if rest.len() < 3 {
                    assert(rest.flatten() == rest[0] + rest.drop_first().flatten());
                }
            }
            append_chars(&mut out, &t[i]);
            i = i + 1;
        }
    }
    assert(tv.skip(n as int) =~= Seq::<Seq<char>>::empty());
    assert(out@ + Seq::<char>::empty() =~= out@);
    out
}

/// Collapses `<atom><atom>*` into `<atom>+` (see [`star_plus_tokens`]).
pub fn convert_star_to_plus(regex: &str) -> (r: String)
    ensures
        r@ == star_to_plus_spec(regex@),
{
    let v = chars_of(regex);
    let r = convert_star_to_plus_chars(&v);
    string_of(&r)
}

fn is_plus_class(b: &Vec<char>) -> (r: bool)
    ensures
        r == plus_class(b@),
{
    let n = b.len();
    if n == 0 || b[n - 1] != '+' {
        return false;
    }
    assert(b@.subrange(0, n - 1) =~= b@.drop_last());
    crate::classes::is_class_range(b, 0, n - 1)
}

/// Empty-branch absorption (see [`absorb_empty_spec`]).
pub fn convert_empty_or_plus_to_star_chars(s: &Vec<char>) -> (r: Vec<char>)
    ensures
        r@ == absorb_empty_spec(s@),
{
    let body = strip_anchors_exec(s);
    let mut bs = split_exec(&body);
    let ghost v = views(bs@);
    let n = bs.len();
    let mut i: usize = 0;
    let mut found_empty = false;
    while i < n
        invariant
            i <= n == bs@.len(),
            v == views(bs@),
            found_empty == exists|j: int| 0 <= j < i && #[trigger] v[j].len() == 0,
        decreases n - i,
    {
        if bs[i].len() == 0 {
            assert(v[i as int].len() == 0);
            found_empty = true;
        }
        i = i + 1;
    }
    if !found_empty {
        return s.clone();
    }
    let mut k: usize = 0;
    assert(first_plus_class(v, 0) == first_plus_class(v, k as int));
    while k < n && !is_plus_class(&bs[k])
        invariant
            k <= n == bs@.len(),
            v == views(bs@),
            first_plus_class(v, 0) == first_plus_class(v, k as int),
        decreases n - k,
    {
        assert(v[k as int] == bs@[k as int]@);
        k = k + 1;
    }
    if k < n {
        assert(v[k as int] == bs@[k as int]@);
        let mut b = bs[k].clone();
        b.pop();
        b.push('*');
        let ghost bv = b@;
        bs.set(k, b);
        let ghost u = views(bs@);
        assert(u =~= v.update(k as int, v[k as int].drop_last().push('*')));
        let mut kept: Vec<Vec<char>> = Vec::new();
        let mut j: usize = 0;
        assert(views(kept@) =~= drop_empty(u.take(0)));
        while j < n
            invariant
                j <= n == bs@.len(),
                u == views(bs@),
                views(kept@) == drop_empty(u.take(j as int)),
            decreases n - j,
        {
            let ghost before = views(kept@);
            assert(u.take(j as int + 1).drop_last() =~= u.take(j as int));
            assert(u[j as int] == bs@[j as int]@);
            if bs[j].len() > 0 {
                kept.push(bs[j].clone());
                assert(views(kept@) =~= before.push(u[j as int]));
            }
            j = j + 1;
        }
        assert(u.take(n as int) =~= u);
        join_exec(&kept)
    } else {
        join_exec(&bs)
    }
}

/// Empty-branch absorption (see [`absorb_empty_spec`]).
pub fn convert_empty_or_plus_to_star(regex: &str) -> (r: String)
    ensures
        r@ == absorb_empty_spec(regex@),
{
    let v = chars_of(regex);
    let r = convert_empty_or_plus_to_star_chars(&v);
    string_of(&r)
}

/// Sort and dedupe pass (see [`sort_branches_spec`]).
pub fn sort_sub_regexes_chars(s: &Vec<char>) -> (r: Vec<char>)
    ensures
        r@ == sort_branches_spec(s@),
{
    let body = strip_anchors_exec(s);
    let bs = split_exec(&body);
    let ghost v = views(bs@);
    let mut cleaned: Vec<Vec<char>> = Vec::new();
    let mut i: usize = 0;
    while i < bs.len()
        invariant
            i <= bs@.len(),
            v == views(bs@),
            views(cleaned@) == v.take(i as int).map_values(|b: Seq<char>| remove_parens_spec(b)),
        decreases bs.len() - i,
    {
        let ghost before = views(cleaned@);
        let c = remove_parens_chars(&bs[i]);
        let ghost cv = c@;
        assert(v[i as int] == bs@[i as int]@);
        cleaned.push(c);
        assert(views(cleaned@) =~= before.push(cv));
        assert(v.take(i as int + 1).map_values(|b: Seq<char>| remove_parens_spec(b)) =~= v.take(
            i as int,
        ).map_values(|b: Seq<char>| remove_parens_spec(b)).push(remove_parens_spec(v[i as int])));
        i = i + 1;
    }
    assert(v.take(bs.len() as int) =~= v);
    let sorted = sort_dedup_exec(cleaned);
    join_exec(&sorted)
}

/// Sort and dedupe pass (see [`sort_branches_spec`]).
pub fn sort_sub_regexes(regex: &str) -> (r: String)
    ensures
        r@ == sort_branches_spec(regex@),
{
    let v = chars_of(regex);
    let r = sort_sub_regexes_chars(&v);
    string_of(&r)
}

/// One pass of the pipeline (see [`simplify_once_spec`]).
pub fn simplify_regex_once_chars(s: &Vec<char>) -> (r: Vec<char>)
    ensures
        r@ == simplify_once_spec(s@),
{
    let a = remove_parens_chars(s);
    let b = sort_sub_regexes_chars(&a);
    let c = merge_into_classes_chars(&b);
    let d = convert_star_to_plus_chars(&c);
    convert_empty_or_plus_to_star_chars(&d)
}

/// One pass of the pipeline (see [`simplify_once_spec`]).
pub fn simplify_regex_once(regex: &str) -> (r: String)
    ensures
        r@ == simplify_once_spec(regex@),
{
    let v = chars_of(regex);
    let r = simplify_regex_once_chars(&v);
    string_of(&r)
}

/// The canonical form (see [`canonicalize`]).
pub fn simplify_regex_chars(s: &Vec<char>) -> (r: Vec<char>)
    ensures
        r@ == canonicalize(s@),
{
    let mut cur = s.clone();
    loop
        invariant
            canonicalize(cur@) == canonicalize(s@),
        decreases bars(cur@), cur@.len(), sorted_flag(cur@),
    {
        let t = simplify_regex_once_chars(&cur);
        if text_eq(&t, &cur) {
            return cur;
        }
        proof {
            lemma_pass_decreases(cur@);
        }
        cur = t;
    }
}

/// The canonical form of a pattern (see [`canonicalize`]).
pub fn simplify_regex(regex: &str) -> (r: String)
    ensures
        r@ == canonicalize(regex@),
{
    let v = chars_of(regex);
    let r = simplify_regex_chars(&v);
    string_of(&r)
}

/// The branches of a pattern (see [`branches_of`]).
pub fn get_sub_regexes(regex: &str) -> (r: Vec<String>)
    ensures
        r@.map_values(|x: String| x@) == branches_of(regex@),
{
    let v = chars_of(regex);
    let body = strip_anchors_exec(&v);
    let bs = split_exec(&body);
    let mut out: Vec<String> = Vec::new();
    let mut i: usize = 0;
    while i < bs.len()
        invariant
            i <= bs@.len(),
            views(bs@) == branches_of(regex@),
            out@.map_values(|x: String| x@) == views(bs@).take(i as int),
        decreases bs.len() - i,
    {
        let ghost before = out@.map_values(|x: String| x@);
        let s = string_of(&bs[i]);
        let ghost sv = s@;
        assert(sv == views(bs@)[i as int]);
        out.push(s);
        assert(out@.map_values(|x: String| x@) =~= before.push(sv));
        assert(views(bs@).take(i as int + 1) =~= views(bs@).take(i as int).push(sv));
        i = i + 1;
    }
    assert(views(bs@).take(bs.len() as int) =~= views(bs@));
    out
}

/// Joins branches with `|` (see [`join_branches`]).
pub fn collect_sub_regexes(sub_regexes: Vec<String>) -> (r: String)
    ensures
        r@ == join_branches(sub_regexes@.map_values(|x: String| x@)),
{
    let mut bs: Vec<Vec<char>> = Vec::new();
    let mut i: usize = 0;
    while i < sub_regexes.len()
        invariant
            i <= sub_regexes@.len(),
            views(bs@) == sub_regexes@.map_values(|x: String| x@).take(i as int),
        decreases sub_regexes.len() - i,
    {
        let ghost before = views(bs@);
        let c = chars_of(sub_regexes[i].as_str());
        let ghost cv = c@;
        assert(cv == sub_regexes@.map_values(|x: String| x@)[i as int]);
        bs.push(c);
        assert(views(bs@) =~= before.push(cv));
        assert(sub_regexes@.map_values(|x: String| x@).take(i as int + 1) =~= sub_regexes@.map_values(
            |x: String| x@,
        ).take(i as int).push(cv));
        i = i + 1;
    }
    assert(sub_regexes@.map_values(|x: String| x@).take(sub_regexes.len() as int)
        =~= sub_regexes@.map_values(|x: String| x@));
    let r = join_exec(&bs);
    string_of(&r)
}

} // verus!
