//! Pattern text: anchors, alternation branches, and the character helpers the
//! rewrite passes share.
use vstd::prelude::*;

verus! {

/// The texts of a list of character vectors.
pub open spec fn views(v: Seq<Vec<char>>) -> Seq<Seq<char>> {
    v.map_values(|b: Vec<char>| b@)
}

/// Number of `|` characters in `s`.
pub open spec fn bars(s: Seq<char>) -> nat
    decreases s.len(),
{
    if s.len() == 0 {
        0
    } else {
        bars(s.drop_last()) + if s.last() == '|' { 1nat } else { 0nat }
    }
}

/// `s` with one leading `^` and one trailing `$` removed, where present.
pub open spec fn strip_anchors(s: Seq<char>) -> Seq<char> {
    let a = if s.len() > 0 && s[0] == '^' { s.drop_first() } else { s };
    if a.len() > 0 && a.last() == '$' { a.drop_last() } else { a }
}

/// The pieces of `s` between `|` characters, in order (at least one).
pub open spec fn split_branches(s: Seq<char>) -> Seq<Seq<char>>
    decreases s.len(),
{
    if s.len() == 0 {
        seq![Seq::empty()]
    } else {
        let init = split_branches(s.drop_last());
        if s.last() == '|' {
            init.push(Seq::empty())
        } else {
            init.update(init.len() - 1, init.last().push(s.last()))
        }
    }
}

/// The branches interleaved with `|`.
pub open spec fn join_branches(bs: Seq<Seq<char>>) -> Seq<char>
    decreases bs.len(),
{
    if bs.len() == 0 {
        Seq::empty()
    } else if bs.len() == 1 {
        bs[0]
    } else {
        join_branches(bs.drop_last()).push('|') + bs.last()
    }
}

/// The branches of a pattern: its text without anchors, split on `|`.
pub open spec fn branches_of(s: Seq<char>) -> Seq<Seq<char>> {
    split_branches(strip_anchors(s))
}

/// No branch holds a `|`.
pub open spec fn bar_free(bs: Seq<Seq<char>>) -> bool {
    forall|i: int| 0 <= i < bs.len() ==> bars(#[trigger] bs[i]) == 0
}

/// Total number of characters in the branches.
pub open spec fn total_len(bs: Seq<Seq<char>>) -> nat
    decreases bs.len(),
{
    if bs.len() == 0 {
        0
    } else {
        total_len(bs.drop_last()) + bs.last().len()
    }
}

pub proof fn lemma_bars_concat(a: Seq<char>, b: Seq<char>)
    ensures
        bars(a + b) == bars(a) + bars(b),
    decreases b.len(),
{
    if b.len() == 0 {
        assert(a + b =~= a);
    } else {
        lemma_bars_concat(a, b.drop_last());
        assert((a + b).drop_last() =~= a + b.drop_last());
    }
}

pub proof fn lemma_bars_zero(s: Seq<char>)
    ensures
        bars(s) == 0 <==> forall|i: int| 0 <= i < s.len() ==> s[i] != '|',
    decreases s.len(),
{
    if s.len() > 0 {
        lemma_bars_zero(s.drop_last());
        if bars(s) == 0 {
            assert forall|i: int| 0 <= i < s.len() implies s[i] != '|' by {
                if i < s.len() - 1 {
                    assert(s.drop_last()[i] == s[i]);
                }
            }
        }
        if forall|i: int| 0 <= i < s.len() ==> s[i] != '|' {
            assert forall|i: int| 0 <= i < s.drop_last().len() implies s.drop_last()[i] != '|' by {
                assert(s.drop_last()[i] == s[i]);
            }
            assert(s[s.len() - 1] != '|');
        }
    }
}

pub proof fn lemma_split_basics(s: Seq<char>)
    ensures
        split_branches(s).len() == bars(s) + 1,
        bar_free(split_branches(s)),
        total_len(split_branches(s)) + bars(s) == s.len(),
    decreases s.len(),
{
    if s.len() == 0 {
        let e = seq![Seq::<char>::empty()];
        assert(e.drop_last() =~= Seq::<Seq<char>>::empty());
        assert(total_len(e) == total_len(e.drop_last()) + 0);
    } else {
        let init = split_branches(s.drop_last());
        lemma_split_basics(s.drop_last());
        let r = split_branches(s);
        if s.last() == '|' {
            assert(r.drop_last() =~= init);
            assert(total_len(r) == total_len(init) + r.last().len());
            assert(r.last().len() == 0);
            assert(bars(s) == bars(s.drop_last()) + 1);
            assert forall|i: int| 0 <= i < r.len() implies bars(#[trigger] r[i]) == 0 by {
                if i < r.len() - 1 {
                    assert(r[i] == init[i]);
                } else {
                    assert(r[i] =~= Seq::<char>::empty());
                }
            }
        } else {
            let k = init.len() - 1;
            assert forall|i: int| 0 <= i < r.len() implies bars(#[trigger] r[i]) == 0 by {
                if i < k {
                    assert(r[i] == init[i]);
                } else {
                    assert(r[i] =~= init[k].push(s.last()));
                    assert(bars(init[k]) == 0);
                    assert(init[k].push(s.last()).drop_last() =~= init[k]);
                }
            }
            assert(r.drop_last() =~= init.drop_last());
            assert(r.last() =~= init.last().push(s.last()));
            assert(total_len(r) == total_len(r.drop_last()) + r.last().len());
            assert(total_len(init) == total_len(init.drop_last()) + init.last().len());
            assert(bars(s) == bars(s.drop_last()));
        }
    }
}

pub proof fn lemma_join_push(bs: Seq<Seq<char>>, c: char)
    requires
        bs.len() >= 1,
    ensures
        join_branches(bs.update(bs.len() - 1, bs.last().push(c))) == join_branches(bs).push(c),
{
    let u = bs.update(bs.len() - 1, bs.last().push(c));
    if bs.len() == 1 {
    } else {
        assert(u.drop_last() =~= bs.drop_last());
    }
}

pub proof fn lemma_join_split(s: Seq<char>)
    ensures
        join_branches(split_branches(s)) == s,
    decreases s.len(),
{
    if s.len() == 0 {
        assert(join_branches(seq![Seq::<char>::empty()]) =~= s);
    } else {
        let init = split_branches(s.drop_last());
        lemma_join_split(s.drop_last());
        lemma_split_basics(s.drop_last());
        if s.last() == '|' {
            let r = init.push(Seq::<char>::empty());
            assert(r.drop_last() =~= init);
            assert(join_branches(r) =~= s.drop_last().push('|') + Seq::<char>::empty());
            assert(s.drop_last().push('|') =~= s);
        } else {
            lemma_join_push(init, s.last());
            assert(s.drop_last().push(s.last()) =~= s);
        }
    }
}

pub proof fn lemma_split_join(bs: Seq<Seq<char>>)
    requires
        bs.len() >= 1,
        bar_free(bs),
    ensures
        split_branches(join_branches(bs)) == bs,
    decreases bs.len(),
{
    if bs.len() == 1 {
        lemma_split_no_bar(bs[0]);
        assert(split_branches(join_branches(bs)) =~= bs);
    } else {
        let init = bs.drop_last();
        assert(bar_free(init)) by {
            assert forall|i: int| 0 <= i < init.len() implies bars(#[trigger] init[i]) == 0 by {
                assert(init[i] == bs[i]);
            }
        }
        lemma_split_join(init);
        lemma_split_append(join_branches(init), bs.last());
        assert(bars(bs[bs.len() - 1]) == 0);
        assert(init.push(bs.last()) =~= bs);
    }
}

/// Splitting text without `|` gives that text alone.
pub proof fn lemma_split_no_bar(b: Seq<char>)
    requires
        bars(b) == 0,
    ensures
        split_branches(b) == seq![b],
    decreases b.len(),
{
    if b.len() > 0 {
        assert(bars(b.drop_last()) == 0 && b.last() != '|');
        lemma_split_no_bar(b.drop_last());
        assert(b.drop_last().push(b.last()) =~= b);
        assert(split_branches(b) =~= seq![b]);
    } else {
        assert(b =~= Seq::<char>::empty());
        assert(split_branches(b) =~= seq![b]);
    }
}

/// Splitting `a | b`, where `b` holds no `|`.
pub proof fn lemma_split_append(a: Seq<char>, b: Seq<char>)
    requires
        bars(b) == 0,
    ensures
        split_branches(a.push('|') + b) == split_branches(a).push(b),
    decreases b.len(),
{
    if b.len() == 0 {
        assert(b =~= Seq::<char>::empty());
        assert(a.push('|') + b =~= a.push('|'));
        assert((a.push('|')).drop_last() =~= a);
        assert(split_branches(a.push('|')) == split_branches(a).push(Seq::empty()));
    } else {
        let b0 = b.drop_last();
        assert(bars(b0) == 0 && b.last() != '|');
        lemma_split_append(a, b0);
        let x = a.push('|') + b;
        assert(x.drop_last() =~= a.push('|') + b0);
        assert(x.last() == b.last());
        assert(b0.push(b.last()) =~= b);
        let p = split_branches(a).push(b0);
        assert(p.update(p.len() - 1, p.last().push(b.last())) =~= split_branches(a).push(b));
    }
}

pub proof fn lemma_join_len(bs: Seq<Seq<char>>)
    requires
        bs.len() >= 1,
    ensures
        join_branches(bs).len() == total_len(bs) + bs.len() - 1,
        bar_free(bs) ==> bars(join_branches(bs)) == bs.len() - 1,
    decreases bs.len(),
{
    if bs.len() > 1 {
        let init = bs.drop_last();
        lemma_join_len(init);
        if bar_free(bs) {
            assert(bar_free(init)) by {
                assert forall|i: int| 0 <= i < init.len() implies bars(#[trigger] init[i]) == 0 by {
                    assert(init[i] == bs[i]);
                }
            }
            lemma_bars_concat(join_branches(init).push('|'), bs.last());
            assert(join_branches(init).push('|').drop_last() =~= join_branches(init));
            assert(bars(bs[bs.len() - 1]) == 0);
        }
    } else {
        assert(total_len(bs) == total_len(bs.drop_last()) + bs[0].len());
    }
}

pub proof fn lemma_strip_anchors(s: Seq<char>)
    ensures
        strip_anchors(s).len() <= s.len(),
        bars(strip_anchors(s)) == bars(s),
        strip_anchors(s).len() == s.len() ==> strip_anchors(s) == s,
{
    let a = if s.len() > 0 && s[0] == '^' { s.drop_first() } else { s };
    if s.len() > 0 && s[0] == '^' {
        lemma_bars_concat(seq![s[0]], s.drop_first());
        assert(seq![s[0]] + s.drop_first() =~= s);
        assert(seq![s[0]].drop_last() =~= Seq::<char>::empty());
        assert(bars(seq![s[0]]) == bars(Seq::<char>::empty()) + 0);
    }
    assert(bars(a) == bars(s));
    if a.len() > 0 && a.last() == '$' {
        assert(bars(a) == bars(a.drop_last()) + 0);
    }
}

/// Appends `t` to `out`.
pub fn append_chars(out: &mut Vec<char>, t: &Vec<char>)
    ensures
        final(out)@ == old(out)@ + t@,
{
    let ghost start = out@;
    let mut j: usize = 0;
    while j < t.len()
        invariant
            j <= t@.len(),
            out@ == start + t@.take(j as int),
        decreases t.len() - j,
    {
        out.push(t[j]);
        j = j + 1;
        assert(out@ =~= start + t@.take(j as int));
    }
    assert(t@.take(t@.len() as int) =~= t@);
}

/// Executable copy of a string's characters.
pub fn chars_of(s: &str) -> (r: Vec<char>)
    ensures
        r@ == s@,
{
    let n = s.unicode_len();
    let mut r: Vec<char> = Vec::new();
    let mut i: usize = 0;
    while i < n
        invariant
            n == s@.len(),
            i <= n,
            r@ == s@.take(i as int),
        decreases n - i,
    {
        let c = s.get_char(i);
        r.push(c);
        i = i + 1;
        assert(r@ =~= s@.take(i as int));
    }
    assert(r@ =~= s@);
    r
}

/// Relies on `String::from_iter` over chars: the string holds exactly those characters.
#[verifier::external_body]
pub(crate) fn string_of(v: &Vec<char>) -> (r: String)
    ensures
        r@ == v@,
{
    v.iter().collect()
}

/// The text without its anchors.
pub fn strip_anchors_exec(s: &Vec<char>) -> (r: Vec<char>)
    ensures
        r@ == strip_anchors(s@),
{
    let n = s.len();
    let start: usize = if n > 0 && s[0] == '^' { 1 } else { 0 };
    let end: usize = if n > start && s[n - 1] == '$' { n - 1 } else { n };
    let mut r: Vec<char> = Vec::new();
    let mut i: usize = start;
    while i < end
        invariant
            start <= i <= end <= n == s@.len(),
            r@ == s@.subrange(start as int, i as int),
        decreases end - i,
    {
        r.push(s[i]);
        i = i + 1;
        assert(r@ =~= s@.subrange(start as int, i as int));
    }
    let ghost a = if n > 0 && s@[0] == '^' { s@.drop_first() } else { s@ };
    assert(r@ =~= strip_anchors(s@));
    r
}

/// Splits text on every `|`.
pub fn split_exec(s: &Vec<char>) -> (r: Vec<Vec<char>>)
    ensures
        views(r@) == split_branches(s@),
{
    let mut done: Vec<Vec<char>> = Vec::new();
    let mut cur: Vec<char> = Vec::new();
    let mut i: usize = 0;
    while i < s.len()
        invariant
            i <= s@.len(),
            split_branches(s@.take(i as int)) == views(done@).push(cur@),
        decreases s.len() - i,
    {
        let c = s[i];
        let ghost t = s@.take(i as int + 1);
        assert(t.drop_last() =~= s@.take(i as int));
        assert(t.last() == c);
        if c == '|' {
            let ghost d0 = views(done@);
            let ghost c0 = cur@;
            done.push(cur);
            assert(views(done@) =~= d0.push(c0));
            cur = Vec::new();
            assert(split_branches(t) =~= views(done@).push(cur@));
        } else {
            let ghost old_cur = cur@;
            cur.push(c);
            assert(split_branches(t) =~= views(done@).push(cur@));
        }
        i = i + 1;
    }
    assert(s@.take(s.len() as int) =~= s@);
    let ghost d0 = views(done@);
    let ghost c0 = cur@;
    done.push(cur);
    assert(views(done@) =~= d0.push(c0));
    done
}

/// Joins branches with `|`.
pub fn join_exec(bs: &Vec<Vec<char>>) -> (r: Vec<char>)
    ensures
        r@ == join_branches(views(bs@)),
{
    let mut r: Vec<char> = Vec::new();
    let mut k: usize = 0;
    while k < bs.len()
        invariant
            k <= bs.len(),
            r@ == join_branches(views(bs@).take(k as int)),
        decreases bs.len() - k,
    {
        let ghost before = r@;
        if k > 0 {
            r.push('|');
        }
        let b = &bs[k];
        let mut j: usize = 0;
        let ghost mid = r@;
        while j < b.len()
            invariant
                j <= b@.len(),
                r@ == mid + b@.take(j as int),
            decreases b.len() - j,
        {
            r.push(b[j]);
            j = j + 1;
            assert(r@ =~= mid + b@.take(j as int));
        }
        let ghost t = views(bs@).take(k as int + 1);
        assert(t.drop_last() =~= views(bs@).take(k as int));
        assert(b@.take(j as int) =~= b@);
        if k == 0 {
            assert(r@ =~= join_branches(t));
        } else {
            assert(r@ =~= join_branches(t));
        }
        k = k + 1;
    }
    assert(views(bs@).take(bs.len() as int) =~= views(bs@));
    r
}

} // verus!
