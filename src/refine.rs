//! The guess refiner: widens or narrows the current best guess after each
//! labeled example, then canonicalizes it.
use vstd::prelude::*;
use crate::canon::{canonicalize, simplify_regex_chars};
use crate::classes::is_quant;
use crate::matcher::{Example, Matcher, admits, admits_text, edged, edged_regex, pattern_compiles, pattern_matches};
use crate::syntax::{branches_of, join_branches, views, chars_of, string_of, strip_anchors_exec, split_exec, join_exec, append_chars};

verus! {

/// `(b+)` or `(b*)`.
pub open spec fn wrapped(b: Seq<char>, q: char) -> Seq<char> {
    seq!['('] + b + seq![q, ')']
}

/// Widening for a positive example `t`: the first branch whose `+` (or else
/// `*`) wrapping admits `t` is wrapped; when none is, `t` is added as a branch.
pub open spec fn extend_branches(bs: Seq<Seq<char>>, t: Seq<char>) -> Seq<Seq<char>>
    decreases bs.len(),
{
    if bs.len() == 0 {
        seq![t]
    } else if admits(wrapped(bs[0], '+'), t) {
        seq![wrapped(bs[0], '+')] + bs.drop_first()
    } else if admits(wrapped(bs[0], '*'), t) {
        seq![wrapped(bs[0], '*')] + bs.drop_first()
    } else {
        seq![bs[0]] + extend_branches(bs.drop_first(), t)
    }
}

/// The narrow repair for a negative example `t`: when its second-to-last
/// character is a quantifier, `t` without it, provided that text compiles
/// anchored and does not match `t`.
pub open spec fn narrowed(t: Seq<char>) -> Option<Seq<char>> {
    if t.len() >= 2 && is_quant(t[t.len() - 2]) {
        let e = t.remove(t.len() - 2);
        if pattern_compiles(edged(e)) && !pattern_matches(edged(e), t) {
            Some(e)
        } else {
            None
        }
    } else {
        None
    }
}

/// A branch that admits the negative example `t` is replaced by the repair,
/// when there is one.
pub open spec fn contract_branch(b: Seq<char>, t: Seq<char>) -> Seq<char> {
    if admits(b, t) && narrowed(t) is Some {
        narrowed(t)->0
    } else {
        b
    }
}

pub open spec fn contract_branches(bs: Seq<Seq<char>>, t: Seq<char>) -> Seq<Seq<char>> {
    bs.map_values(|b: Seq<char>| contract_branch(b, t))
}

/// The positive examples, each in its own group.
pub open spec fn grouped_positives(ex: Seq<Example>) -> Seq<Seq<char>>
    decreases ex.len(),
{
    if ex.len() == 0 {
        Seq::empty()
    } else if ex.last().matched {
        grouped_positives(ex.drop_last()).push(seq!['('] + ex.last().text@ + seq![')'])
    } else {
        grouped_positives(ex.drop_last())
    }
}

/// The canonical text of the next guess, before compilation: from no guess,
/// the alternation of the grouped positive examples; from a guess, its
/// branches widened or narrowed by the newest example.
pub open spec fn candidate(guess: Seq<char>, ex: Seq<Example>) -> Seq<char> {
    canonicalize(
        if guess.len() == 0 {
            join_branches(grouped_positives(ex))
        } else {
            let bs = branches_of(guess);
            let t = ex.last().text@;
            join_branches(
                if ex.last().matched {
                    extend_branches(bs, t)
                } else {
                    contract_branches(bs, t)
                },
            )
        },
    )
}

/// `(b` + `q` + `)`.
fn wrap(b: &Vec<char>, q: char) -> (r: Vec<char>)
    ensures
        r@ == wrapped(b@, q),
{
    let mut r: Vec<char> = Vec::new();
    r.push('(');
    append_chars(&mut r, b);
    r.push(q);
    r.push(')');
    assert(r@ =~= wrapped(b@, q));
    r
}

/// Widens the branches to admit the positive example `text`.
pub fn extend_to_fit(bs: &mut Vec<Vec<char>>, text: &str)
    ensures
        views(final(bs)@) == extend_branches(views(old(bs)@), text@),
{
    let ghost v = views(bs@);
    let n = bs.len();
    let mut i: usize = 0;
    assert(v.skip(0) =~= v);
    while i < n
        invariant
            i <= n == bs@.len(),
            views(bs@) == v,
            v == views(old(bs)@),
            forall|k: int| 0 <= k < i ==> !admits(wrapped(#[trigger] v[k], '+'), text@) && !admits(wrapped(v[k], '*'), text@),
            extend_branches(v, text@) == v.take(i as int) + extend_branches(v.skip(i as int), text@),
        decreases n - i,
    {
        let ghost rest = v.skip(i as int);
        assert(rest[0] == v[i as int] && v[i as int] == bs@[i as int]@);
        assert(rest.drop_first() =~= v.skip(i + 1));
        let plus = wrap(&bs[i], '+');
        if admits_text(&plus, text) {
            let ghost pv = plus@;
            assert(extend_branches(rest, text@) == seq![pv] + rest.drop_first());
            bs.set(i, plus);
            assert(views(bs@) =~= v.take(i as int) + (seq![pv] + rest.drop_first()));
            return;
        }
        let star = wrap(&bs[i], '*');
        if admits_text(&star, text) {
            let ghost sv = star@;
            assert(extend_branches(rest, text@) == seq![sv] + rest.drop_first());
            bs.set(i, star);
            assert(views(bs@) =~= v.take(i as int) + (seq![sv] + rest.drop_first()));
            return;
        }
        assert(v.take(i as int) + (seq![v[i as int]] + extend_branches(v.skip(i + 1), text@))
            =~= v.take(i + 1) + extend_branches(v.skip(i + 1), text@));
        i = i + 1;
    }
    let t = chars_of(text);
    let ghost before = views(bs@);
    bs.push(t);
    assert(v.skip(n as int) =~= Seq::<Seq<char>>::empty());
    assert(v.take(n as int) =~= v);
    assert(views(bs@) =~= before.push(text@));
}

/// The narrow repair for the negative example `text` (see [`narrowed`]).
fn narrow(text: &str) -> (r: Option<Vec<char>>)
    ensures
        r matches Some(e) ==> narrowed(text@) == Some(e@),
        r is None ==> narrowed(text@) is None,
{
    let t = chars_of(text);
    let n = t.len();
    if n < 2 || !(t[n - 2] == '*' || t[n - 2] == '+') {
        return None;
    }
    let mut e: Vec<char> = Vec::new();
    let mut i: usize = 0;
    while i < n - 2
        invariant
            i <= n - 2,
            n == t@.len(),
            e@ == t@.take(i as int),
        decreases n - 2 - i,
    {
        e.push(t[i]);
        i = i + 1;
        assert(e@ =~= t@.take(i as int));
    }
    e.push(t[n - 1]);
    assert(e@ =~= t@.remove(n - 2));
    let es = string_of(&e);
    match edged_regex(es.as_str()) {
        Ok(m) => {
            if m.is_match(text) {
                None
            } else {
                Some(e)
            }
        },
        Err(_) => None,
    }
}

/// Narrows every branch that admits the negative example `text`, where the
/// repair applies.
pub fn contract_to_avoid(bs: &mut Vec<Vec<char>>, text: &str)
    ensures
        views(final(bs)@) == contract_branches(views(old(bs)@), text@),
{
    let ghost v = views(bs@);
    let n = bs.len();
    let repair = narrow(text);
    let mut i: usize = 0;
    while i < n
        invariant
            i <= n == bs@.len(),
            v == views(old(bs)@),
            repair matches Some(e) ==> narrowed(text@) == Some(e@),
            repair is None ==> narrowed(text@) is None,
            v.len() == n,
            forall|k: int| 0 <= k < i ==> #[trigger] views(bs@)[k] == contract_branch(v[k], text@),
            forall|k: int| i <= k < n ==> #[trigger] views(bs@)[k] == v[k],
        decreases n - i,
    {
        assert(views(bs@)[i as int] == bs@[i as int]@);
        let ghost before = views(bs@);
        match &repair {
            Some(e) => {
                if admits_text(&bs[i], text) {
                    let c = e.clone();
                    assert(c@ == e@);
                    bs.set(i, c);
                    assert(views(bs@) =~= before.update(i as int, e@));
                } else {
                    assert(views(bs@) =~= before);
                }
            },
            None => {
                assert(views(bs@) =~= before);
            },
        }
        assert(views(bs@)[i as int] == contract_branch(v[i as int], text@));
        i = i + 1;
    }
    assert(views(bs@) =~= contract_branches(v, text@));
}

/// The positive examples, each in its own group, joined with `|`.
fn initial_guess(examples: &Vec<Example>) -> (r: Vec<char>)
    ensures
        r@ == join_branches(grouped_positives(examples@)),
{
    let mut groups: Vec<Vec<char>> = Vec::new();
    let mut i: usize = 0;
    while i < examples.len()
        invariant
            i <= examples@.len(),
            views(groups@) == grouped_positives(examples@.take(i as int)),
        decreases examples.len() - i,
    {
        let ghost before = views(groups@);
        assert(examples@.take(i as int + 1).drop_last() =~= examples@.take(i as int));
        if examples[i].matched {
            let mut g: Vec<char> = Vec::new();
            g.push('(');
            let t = chars_of(examples[i].text.as_str());
            append_chars(&mut g, &t);
            g.push(')');
            let ghost gv = g@;
            assert(gv =~= seq!['('] + examples@[i as int].text@ + seq![')']);
            groups.push(g);
            assert(views(groups@) =~= before.push(gv));
        }
        i = i + 1;
    }
    assert(examples@.take(examples.len() as int) =~= examples@);
    join_exec(&groups)
}

/// The next guess after the newest of `examples` (see [`candidate`]),
/// compiled anchored; `None` when that text does not compile, in which case
/// the caller keeps its guess.
pub fn refine_guess(guess: &str, examples: &Vec<Example>) -> (r: Option<Matcher>)
    requires
        examples@.len() > 0,
    ensures
        r is Some <==> pattern_compiles(edged(candidate(guess@, examples@))),
        r matches Some(m) ==> m@ == edged(candidate(guess@, examples@)),
{
    let g = chars_of(guess);
    let text = if g.len() == 0 {
        initial_guess(examples)
    } else {
        let body = strip_anchors_exec(&g);
        let mut bs = split_exec(&body);
        let newest = &examples[examples.len() - 1];
        if newest.matched {
            extend_to_fit(&mut bs, newest.text.as_str());
        } else {
            contract_to_avoid(&mut bs, newest.text.as_str());
        }
        join_exec(&bs)
    };
    let canonical = simplify_regex_chars(&text);
    let cs = string_of(&canonical);
    match edged_regex(cs.as_str()) {
        Ok(m) => Some(m),
        Err(_) => None,
    }
}

} // verus!
