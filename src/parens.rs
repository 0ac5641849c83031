//! Removal of redundant parentheses.
use vstd::prelude::*;
use crate::classes::{class_text, is_quant, matching_paren, lemma_paren_scan, is_class_range, matching_paren_in};
use crate::syntax::bars;

verus! {

/// Whether the parenthesis pair opened at `l` asks for index `i` to be deleted.
///
/// A pair that no `*` or `+` follows is noise and goes. A quantified pair
/// around a single class goes too, and around a quantified class the two
/// quantifiers fold into one: `(c+)* = c*`, `(c*)+ = c*`, `(c*)* = c*`,
/// `(c+)+ = c+`.
pub open spec fn pair_marks(s: Seq<char>, l: int, i: int) -> bool {
    0 <= l < s.len() && s[l] == '(' && match matching_paren(s, l) {
        None => false,
        Some(r) => {
            let q = r + 1 < s.len() && is_quant(s[r + 1]);
            if !q {
                i == l || i == r
            } else if !(l + 1 < r) {
                false
            } else if class_text(s.subrange(l + 1, r)) {
                i == l || i == r
            } else if !(l + 1 < r - 1) {
                false
            } else if class_text(s.subrange(l + 1, r - 1)) && is_quant(s[r - 1]) {
                if s[r + 1] == '*' {
                    i == l || i == r - 1 || i == r
                } else {
                    i == l || i == r || i == r + 1
                }
            } else {
                false
            }
        },
    }
}

/// Whether some parenthesis pair asks for index `i` to be deleted.
pub open spec fn paren_marked(s: Seq<char>, i: int) -> bool {
    exists|l: int| pair_marks(s, l, i)
}

/// `s` without the characters at the indices that `m` marks.
pub open spec fn delete_marked(s: Seq<char>, m: spec_fn(int) -> bool) -> Seq<char>
    decreases s.len(),
{
    if s.len() == 0 {
        s
    } else {
        let init = delete_marked(s.drop_last(), m);
        if m(s.len() - 1) {
            init
        } else {
            init.push(s.last())
        }
    }
}

/// The text with every redundant parenthesis pair deleted (see [`pair_marks`]).
pub open spec fn remove_parens_spec(s: Seq<char>) -> Seq<char> {
    delete_marked(s, |i: int| paren_marked(s, i))
}

pub proof fn lemma_delete_marked(s: Seq<char>, m: spec_fn(int) -> bool)
    ensures
        delete_marked(s, m).len() <= s.len(),
        delete_marked(s, m).len() == s.len() ==> delete_marked(s, m) == s,
        (forall|i: int| 0 <= i < s.len() && #[trigger] m(i) ==> s[i] != '|') ==> bars(
            delete_marked(s, m),
        ) == bars(s),
    decreases s.len(),
{
    if s.len() > 0 {
        let init = s.drop_last();
        lemma_delete_marked(init, m);
        if forall|i: int| 0 <= i < s.len() && #[trigger] m(i) ==> s[i] != '|' {
            assert forall|i: int| 0 <= i < init.len() && #[trigger] m(i) implies init[i] != '|' by {
                assert(init[i] == s[i]);
            }
            let d = delete_marked(init, m);
            if m(s.len() - 1) {
                assert(s[s.len() - 1] != '|');
                assert(bars(s) == bars(init));
            } else {
                assert(d.push(s.last()).drop_last() =~= d);
                assert(bars(d.push(s.last())) == bars(d) + if s.last() == '|' { 1nat } else { 0nat });
            }
        }
        if delete_marked(s, m).len() == s.len() {
            assert(!m(s.len() - 1));
            assert(init.push(s.last()) =~= s);
        }
    }
}

/// Characters that a parenthesis pair marks are parentheses or quantifiers.
pub proof fn lemma_marked_not_bar(s: Seq<char>, i: int)
    requires
        0 <= i < s.len(),
        paren_marked(s, i),
    ensures
        s[i] != '|',
{
    let l = choose|l: int| pair_marks(s, l, i);
    lemma_paren_scan(s, l + 1, 1);
}

pub proof fn lemma_remove_parens(s: Seq<char>)
    ensures
        remove_parens_spec(s).len() <= s.len(),
        remove_parens_spec(s).len() == s.len() ==> remove_parens_spec(s) == s,
        bars(remove_parens_spec(s)) == bars(s),
{
    let m = |i: int| paren_marked(s, i);
    lemma_delete_marked(s, m);
    assert forall|i: int| 0 <= i < s.len() && #[trigger] m(i) implies s[i] != '|' by {
        lemma_marked_not_bar(s, i);
    }
}

fn is_quant_char(c: char) -> (r: bool)
    ensures
        r == is_quant(c),
{
    c == '*' || c == '+'
}

/// Deletes redundant parentheses (see [`pair_marks`]).
pub fn remove_parens_chars(s: &Vec<char>) -> (r: Vec<char>)
    ensures
        r@ == remove_parens_spec(s@),
{
    let n = s.len();
    let mut mask: Vec<bool> = Vec::new();
    let mut k: usize = 0;
    while k < n
        invariant
            k <= n == s@.len(),
            mask@.len() == k,
            forall|i: int| 0 <= i < k ==> !mask@[i],
        decreases n - k,
    {
        mask.push(false);
        k = k + 1;
    }
    let mut l: usize = 0;
    while l < n
        invariant
            l <= n == s@.len(),
            mask@.len() == n,
            forall|i: int|
                0 <= i < n ==> #[trigger] mask@[i] == exists|l0: int| 0 <= l0 < l && pair_marks(s@, l0, i),
        decreases n - l,
    {
        let ghost old_mask = mask@;
        if s[l] == '(' {
            match matching_paren_in(s, l) {
                None => {},
                Some(r) => {
                    proof {
                        lemma_paren_scan(s@, l as int + 1, 1);
                    }
                    let q = r + 1 < n && is_quant_char(s[r + 1]);
                    if !q {
                        mask.set(l, true);
                        mask.set(r, true);
                    } else if l + 1 < r {
                        if is_class_range(s, l + 1, r) {
                            mask.set(l, true);
                            mask.set(r, true);
                        } else if l + 1 < r - 1 {
                            if is_class_range(s, l + 1, r - 1) && is_quant_char(s[r - 1]) {
                                if s[r + 1] == '*' {
                                    mask.set(l, true);
                                    mask.set(r - 1, true);
                                    mask.set(r, true);
                                } else {
                                    mask.set(l, true);
                                    mask.set(r, true);
                                    mask.set(r + 1, true);
                                }
                            }
                        }
                    }
                },
            }
        }
        assert forall|i: int| 0 <= i < n implies #[trigger] mask@[i] == (old_mask[i] || pair_marks(
            s@,
            l as int,
            i,
        )) by {}
        assert forall|i: int| 0 <= i < n implies #[trigger] mask@[i] == exists|l0: int|
            0 <= l0 < l + 1 && pair_marks(s@, l0, i) by {
            if pair_marks(s@, l as int, i) {
                assert(0 <= l < l + 1 && pair_marks(s@, l as int, i));
            }
            if exists|l0: int| 0 <= l0 < l + 1 && pair_marks(s@, l0, i) {
                let l0 = choose|l0: int| 0 <= l0 < l + 1 && pair_marks(s@, l0, i);
                if l0 < l {
                    assert(old_mask[i]);
                }
            }
        }
        l = l + 1;
    }
    let ghost f = |i: int| paren_marked(s@, i);
    assert forall|i: int| 0 <= i < n implies #[trigger] mask@[i] == f(i) by {
        if paren_marked(s@, i) {
            let l0 = choose|l0: int| pair_marks(s@, l0, i);
            assert(0 <= l0 < n);
        }
    }
    let mut out: Vec<char> = Vec::new();
    let mut i: usize = 0;
    while i < n
        invariant
            i <= n == s@.len(),
            mask@.len() == n,
            forall|j: int| 0 <= j < n ==> #[trigger] mask@[j] == f(j),
            out@ == delete_marked(s@.take(i as int), f),
        decreases n - i,
    {
        let ghost t = s@.take(i as int + 1);
        assert(t.drop_last() =~= s@.take(i as int));
        if !mask[i] {
            out.push(s[i]);
        }
        i = i + 1;
    }
    assert(s@.take(n as int) =~= s@);
    out
}

/// Deletes redundant parentheses (see [`pair_marks`]).
pub fn remove_parens(regex: &str) -> (r: String)
    ensures
        r@ == remove_parens_spec(regex@),
{
    let v = crate::syntax::chars_of(regex);
    let r = remove_parens_chars(&v);
    crate::syntax::string_of(&r)
}

} // verus!
