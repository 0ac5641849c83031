//! Atoms of a branch: tokens, digit classes and their unions, and the
//! matching of parentheses.
use vstd::prelude::*;

verus! {

pub open spec fn digit_char(c: char) -> bool {
    c == '0' || c == '1' || c == '2' || c == '3'
}

pub open spec fn is_quant(c: char) -> bool {
    c == '*' || c == '+'
}

/// A single digit, or 1 to 3 distinct digits in brackets.
pub open spec fn class_text(t: Seq<char>) -> bool {
    (t.len() == 1 && digit_char(t[0])) || (3 <= t.len() <= 5 && t[0] == '[' && t.last()
        == ']' && (forall|i: int| 1 <= i < t.len() - 1 ==> digit_char(#[trigger] t[i])) && (
    forall|i: int, j: int| 1 <= i < j < t.len() - 1 ==> t[i] != t[j]))
}

/// The digits a class token stands for.
pub open spec fn class_digits(t: Seq<char>) -> Set<char> {
    Set::new(|c: char| digit_char(c) && t.contains(c))
}

/// The digits flagged present, ascending.
pub open spec fn ordered_digits(h0: bool, h1: bool, h2: bool, h3: bool) -> Seq<char> {
    (if h0 { seq!['0'] } else { Seq::empty() }) + (if h1 { seq!['1'] } else { Seq::empty() }) + (
    if h2 { seq!['2'] } else { Seq::empty() }) + (if h3 { seq!['3'] } else { Seq::empty() })
}

/// How a set of digits is written: `.` for all four, a bare digit for one,
/// otherwise the digits ascending in brackets.
pub open spec fn render_flags(h0: bool, h1: bool, h2: bool, h3: bool) -> Seq<char> {
    let o = ordered_digits(h0, h1, h2, h3);
    if o.len() == 4 {
        seq!['.']
    } else if o.len() == 1 {
        o
    } else {
        seq!['['] + o + seq![']']
    }
}

/// How the digit set `d` is written (see [`render_flags`]).
pub open spec fn render_digits(d: Set<char>) -> Seq<char> {
    render_flags(d.contains('0'), d.contains('1'), d.contains('2'), d.contains('3'))
}

/// The union of two class tokens; anything else becomes an alternation group.
pub open spec fn class_union_spec(a: Seq<char>, b: Seq<char>) -> Seq<char> {
    if class_text(a) && class_text(b) {
        render_digits(class_digits(a).union(class_digits(b)))
    } else {
        seq!['('] + a + seq!['|'] + b + seq![')']
    }
}

/// Characters up to and including the first `]`, or all of them.
pub open spec fn bracket_len(s: Seq<char>) -> nat
    decreases s.len(),
{
    if s.len() == 0 {
        0
    } else if s[0] == ']' {
        1
    } else {
        1 + bracket_len(s.drop_first())
    }
}

/// Length of the first token of `s`: a bracketed class, or one character.
pub open spec fn token_len(s: Seq<char>) -> nat {
    if s.len() == 0 {
        0
    } else if s[0] == '[' {
        1 + bracket_len(s.drop_first())
    } else {
        1
    }
}

pub proof fn lemma_bracket_len(s: Seq<char>)
    ensures
        bracket_len(s) <= s.len(),
    decreases s.len(),
{
    if s.len() > 0 {
        lemma_bracket_len(s.drop_first());
    }
}

/// A branch split into atoms: each bracketed class is one token, every other
/// character is a token of its own.
pub open spec fn tokens(s: Seq<char>) -> Seq<Seq<char>>
    decreases s.len(),
{
    if s.len() == 0 {
        Seq::empty()
    } else {
        let k = token_len(s);
        if 0 < k <= s.len() {
            seq![s.take(k as int)] + tokens(s.skip(k as int))
        } else {
            Seq::empty()
        }
    }
}

pub proof fn lemma_tokens(s: Seq<char>)
    ensures
        tokens(s).flatten() == s,
        forall|i: int| 0 <= i < tokens(s).len() ==> #[trigger] tokens(s)[i].len() > 0,
    decreases s.len(),
{
    if s.len() > 0 {
        let k = token_len(s);
        lemma_bracket_len(s.drop_first());
        assert(0 < k <= s.len());
        lemma_tokens(s.skip(k as int));
        let t = tokens(s);
        assert(t.drop_first() =~= tokens(s.skip(k as int)));
        assert(t.flatten() == t[0] + t.drop_first().flatten());
        assert(s.take(k as int) + s.skip(k as int) =~= s);
        assert forall|i: int| 0 <= i < t.len() implies #[trigger] t[i].len() > 0 by {
            if i > 0 {
                assert(t[i] == t.drop_first()[i - 1]);
            }
        }
    } else {
        assert(tokens(s).flatten() =~= s);
    }
}

/// Where the scan for a closing parenthesis ends: the first index from `i` on
/// where the nesting depth, starting at `depth`, drops to zero.
pub open spec fn paren_scan(s: Seq<char>, i: int, depth: int) -> Option<int>
    decreases s.len() - i,
{
    if i < 0 || i >= s.len() {
        None
    } else {
        let d = if s[i] == '(' {
            depth + 1
        } else if s[i] == ')' {
            depth - 1
        } else {
            depth
        };
        if d <= 0 {
            Some(i)
        } else {
            paren_scan(s, i + 1, d)
        }
    }
}

/// The index of the parenthesis that closes the one at `left`.
pub open spec fn matching_paren(s: Seq<char>, left: int) -> Option<int> {
    paren_scan(s, left + 1, 1)
}

pub proof fn lemma_paren_scan(s: Seq<char>, i: int, depth: int)
    requires
        depth >= 1,
    ensures
        paren_scan(s, i, depth) matches Some(r) ==> i <= r < s.len() && s[r] == ')',
    decreases s.len() - i,
{
    if 0 <= i < s.len() {
        let d = if s[i] == '(' {
            depth + 1
        } else if s[i] == ')' {
            depth - 1
        } else {
            depth
        };
        if d > 0 {
            lemma_paren_scan(s, i + 1, d);
        }
    }
}

pub fn is_digit_char(c: char) -> (r: bool)
    ensures
        r == digit_char(c),
{
    c == '0' || c == '1' || c == '2' || c == '3'
}

/// Whether the characters `s[lo..hi]` form a class token.
pub fn is_class_range(s: &Vec<char>, lo: usize, hi: usize) -> (r: bool)
    requires
        lo <= hi <= s@.len(),
    ensures
        r == class_text(s@.subrange(lo as int, hi as int)),
{
    let ghost t = s@.subrange(lo as int, hi as int);
    let n = hi - lo;
    if n == 1 {
        return is_digit_char(s[lo]);
    }
    if n < 3 || n > 5 || s[lo] != '[' || s[hi - 1] != ']' {
        return false;
    }
    let mut i: usize = lo + 1;
    while i < hi - 1
        invariant
            lo + 1 <= i <= hi - 1,
            hi <= s@.len(),
            t == s@.subrange(lo as int, hi as int),
            forall|a: int| 1 <= a < i - lo ==> digit_char(#[trigger] t[a]),
            forall|a: int, b: int| 1 <= a < b < i - lo ==> t[a] != t[b],
        decreases hi - i,
    {
        if !is_digit_char(s[i]) {
            assert(t[i - lo] == s@[i as int]);
            return false;
        }
        let mut j: usize = lo + 1;
        while j < i
            invariant
                lo + 1 <= j <= i < hi - 1,
                hi <= s@.len(),
                t == s@.subrange(lo as int, hi as int),
                forall|a: int| 1 <= a < j - lo ==> #[trigger] t[a] != t[i - lo],
            decreases i - j,
        {
            if s[j] == s[i] {
                assert(t[j - lo] == t[i - lo]);
                return false;
            }
            j = j + 1;
        }
        i = i + 1;
    }
    true
}

/// Whether `t` is a class: a single digit, or 1 to 3 distinct digits in brackets.
pub fn is_class(t: &Vec<char>) -> (r: bool)
    ensures
        r == class_text(t@),
{
    assert(t@.subrange(0, t@.len() as int) =~= t@);
    is_digit(t) || is_class_range(t, 0, t.len())
}

/// Whether `t` is one of the four digits, alone.
pub fn is_digit(t: &Vec<char>) -> (r: bool)
    ensures
        r == (t@.len() == 1 && digit_char(t@[0])),
{
    t.len() == 1 && is_digit_char(t[0])
}

/// The digits written in a class token: the token itself for a bare digit,
/// the characters between the brackets otherwise.
pub fn extract_class_digits(t: &Vec<char>) -> (r: Option<Vec<char>>)
    ensures
        r is Some <==> class_text(t@),
        r matches Some(d) ==> d@.len() > 0 && d@.to_set() == class_digits(t@),
{
    if !is_class(t) {
        return None;
    }
    if t.len() == 1 {
        assert(t@.to_set() =~= class_digits(t@)) by {
            assert forall|c: char| t@.to_set().contains(c) <==> class_digits(t@).contains(c) by {
                if t@.contains(c) {
                    let k = choose|k: int| 0 <= k < t@.len() && t@[k] == c;
                    assert(k == 0);
                }
                if c == t@[0] {
                    assert(t@.contains(c));
                }
            }
        }
        return Some(t.clone());
    }
    let n = t.len();
    let mut d: Vec<char> = Vec::new();
    let mut i: usize = 1;
    while i < n - 1
        invariant
            1 <= i <= n - 1,
            n == t@.len(),
            n >= 3,
            d@ == t@.subrange(1, i as int),
        decreases n - 1 - i,
    {
        d.push(t[i]);
        i = i + 1;
        assert(d@ =~= t@.subrange(1, i as int));
    }
    assert(d@.to_set() =~= class_digits(t@)) by {
        assert forall|c: char| d@.to_set().contains(c) <==> class_digits(t@).contains(c) by {
            if d@.contains(c) {
                let k = choose|k: int| 0 <= k < d@.len() && d@[k] == c;
                assert(t@[k + 1] == c);
                assert(digit_char(t@[k + 1]));
            }
            if class_digits(t@).contains(c) {
                let k = choose|k: int| 0 <= k < t@.len() && t@[k] == c;
                assert(k != 0 && k != n - 1);
                assert(d@[k - 1] == c);
            }
        }
    }
    Some(d)
}

fn contains_char(v: &Vec<char>, c: char) -> (r: bool)
    ensures
        r == v@.contains(c),
{
    let mut i: usize = 0;
    while i < v.len()
        invariant
            i <= v@.len(),
            forall|k: int| 0 <= k < i ==> v@[k] != c,
        decreases v.len() - i,
    {
        if v[i] == c {
            return true;
        }
        i = i + 1;
    }
    false
}

/// The union of two classes, written as [`render_digits`] says; two tokens
/// that are not both classes become `(a|b)`.
pub fn class_union(r1: &Vec<char>, r2: &Vec<char>) -> (r: Vec<char>)
    ensures
        r@ == class_union_spec(r1@, r2@),
        class_text(r1@) && class_text(r2@) && (forall|c: char|
            digit_char(c) ==> #[trigger] class_digits(r1@).union(class_digits(r2@)).contains(c))
            ==> r@ == seq!['.'],
{
    match (extract_class_digits(r1), extract_class_digits(r2)) {
        (Some(d1), Some(d2)) => {
            let ghost u = class_digits(r1@).union(class_digits(r2@));
            let has0 = contains_char(&d1, '0') || contains_char(&d2, '0');
            let has1 = contains_char(&d1, '1') || contains_char(&d2, '1');
            let has2 = contains_char(&d1, '2') || contains_char(&d2, '2');
            let has3 = contains_char(&d1, '3') || contains_char(&d2, '3');
            assert(has0 == u.contains('0') && has1 == u.contains('1') && has2 == u.contains('2')
                && has3 == u.contains('3')) by {
                assert(d1@.to_set().contains('0') == d1@.contains('0'));
                assert(d2@.to_set().contains('0') == d2@.contains('0'));
                assert(d1@.to_set().contains('1') == d1@.contains('1'));
                assert(d2@.to_set().contains('1') == d2@.contains('1'));
                assert(d1@.to_set().contains('2') == d1@.contains('2'));
                assert(d2@.to_set().contains('2') == d2@.contains('2'));
                assert(d1@.to_set().contains('3') == d1@.contains('3'));
                assert(d2@.to_set().contains('3') == d2@.contains('3'));
            }
            render_digit_flags(has0, has1, has2, has3)
        },
        _ => alternation_group(r1, r2),
    }
}

fn render_digit_flags(h0: bool, h1: bool, h2: bool, h3: bool) -> (r: Vec<char>)
    ensures
        r@ == render_flags(h0, h1, h2, h3),
{
    let mut o: Vec<char> = Vec::new();
    if h0 {
        o.push('0');
    }
    if h1 {
        o.push('1');
    }
    if h2 {
        o.push('2');
    }
    if h3 {
        o.push('3');
    }
    assert(o@ =~= ordered_digits(h0, h1, h2, h3));
    if o.len() == 4 {
        let mut r: Vec<char> = Vec::new();
        r.push('.');
        assert(r@ =~= seq!['.']);
        r
    } else if o.len() == 1 {
        o
    } else {
        let mut r: Vec<char> = Vec::new();
        r.push('[');
        let mut i: usize = 0;
        while i < o.len()
            invariant
                i <= o@.len(),
                r@ == seq!['['] + o@.take(i as int),
            decreases o.len() - i,
        {
            r.push(o[i]);
            i = i + 1;
            assert(r@ =~= seq!['['] + o@.take(i as int));
        }
        r.push(']');
        assert(o@.take(o@.len() as int) =~= o@);
        assert(r@ =~= seq!['['] + o@ + seq![']']);
        r
    }
}

/// `(a|b)`.
fn alternation_group(r1: &Vec<char>, r2: &Vec<char>) -> (r: Vec<char>)
    ensures
        r@ == seq!['('] + r1@ + seq!['|'] + r2@ + seq![')'],
{
    let mut r: Vec<char> = Vec::new();
    r.push('(');
    let mut i: usize = 0;
    while i < r1.len()
        invariant
            i <= r1@.len(),
            r@ == seq!['('] + r1@.take(i as int),
        decreases r1.len() - i,
    {
        r.push(r1[i]);
        i = i + 1;
        assert(r@ =~= seq!['('] + r1@.take(i as int));
    }
    r.push('|');
    let ghost mid = r@;
    let mut j: usize = 0;
    while j < r2.len()
        invariant
            j <= r2@.len(),
            r@ == mid + r2@.take(j as int),
        decreases r2.len() - j,
    {
        r.push(r2[j]);
        j = j + 1;
        assert(r@ =~= mid + r2@.take(j as int));
    }
    r.push(')');
    assert(r1@.take(r1@.len() as int) =~= r1@);
    assert(r2@.take(r2@.len() as int) =~= r2@);
    assert(r@ =~= seq!['('] + r1@ + seq!['|'] + r2@ + seq![')']);
    r
}

/// Splits a branch into its atoms (see [`tokens`]).
pub fn split_into_classes_and_chars(s: &Vec<char>) -> (r: Vec<Vec<char>>)
    ensures
        crate::syntax::views(r@) == tokens(s@),
{
    let n = s.len();
    let mut out: Vec<Vec<char>> = Vec::new();
    let mut i: usize = 0;
    assert(s@.skip(0) =~= s@);
    assert(crate::syntax::views(out@) =~= Seq::<Seq<char>>::empty());
    while i < n
        invariant
            i <= n == s@.len(),
            tokens(s@) == crate::syntax::views(out@) + tokens(s@.skip(i as int)),
        decreases n - i,
    {
        let ghost rest = s@.skip(i as int);
        let mut j: usize = i + 1;
        if s[i] == '[' {
            assert(rest.drop_first() =~= s@.skip(i as int + 1));
            while j < n && s[j] != ']'
                invariant
                    i + 1 <= j <= n == s@.len(),
                    rest == s@.skip(i as int),
                    s@[i as int] == '[',
                    bracket_len(rest.drop_first()) == (j - i - 1) + bracket_len(
                        s@.skip(j as int),
                    ),
                decreases n - j,
            {
                assert(s@.skip(j as int).drop_first() =~= s@.skip(j as int + 1));
                j = j + 1;
            }
            assert(rest.drop_first() =~= s@.skip(i as int + 1));
            if j < n {
                assert(bracket_len(s@.skip(j as int)) == 1);
                j = j + 1;
            } else {
                assert(s@.skip(j as int).len() == 0);
            }
        }
        assert(token_len(rest) == j - i);
        let mut tok: Vec<char> = Vec::new();
        let mut k: usize = i;
        while k < j
            invariant
                i <= k <= j <= n == s@.len(),
                tok@ == s@.subrange(i as int, k as int),
            decreases j - k,
        {
            tok.push(s[k]);
            k = k + 1;
            assert(tok@ =~= s@.subrange(i as int, k as int));
        }
        let ghost out0 = crate::syntax::views(out@);
        assert(rest.take((j - i) as int) =~= tok@);
        assert(rest.skip((j - i) as int) =~= s@.skip(j as int));
        assert(tokens(rest) =~= seq![tok@] + tokens(s@.skip(j as int)));
        out.push(tok);
        assert(crate::syntax::views(out@) =~= out0.push(tok@));
        i = j;
    }
    assert(crate::syntax::views(out@) + tokens(s@.skip(n as int)) =~= crate::syntax::views(out@));
    out
}

/// The index of the parenthesis that closes the one at `left_index`, if any.
pub fn matching_paren_in(s: &Vec<char>, left_index: usize) -> (r: Option<usize>)
    ensures
        r matches Some(k) ==> Some(k as int) == matching_paren(s@, left_index as int),
        r is None ==> matching_paren(s@, left_index as int) is None,
{
    if left_index >= s.len() {
        return None;
    }
    let mut i: usize = left_index + 1;
    let mut depth: u64 = 1;
    while i < s.len()
        invariant
            left_index < i <= s@.len(),
            1 <= depth <= i - left_index,
            paren_scan(s@, i as int, depth as int) == matching_paren(s@, left_index as int),
        decreases s.len() - i,
    {
        if s[i] == '(' {
            depth = depth + 1;
        } else if s[i] == ')' {
            depth = depth - 1;
        }
        if depth == 0 {
            return Some(i);
        }
        i = i + 1;
    }
    None
}

/// The index of the parenthesis that closes the one at `left_index`, if any.
pub fn get_matching_paren_index(s: &str, left_index: usize) -> (r: Option<usize>)
    ensures
        r matches Some(k) ==> Some(k as int) == matching_paren(s@, left_index as int),
        r is None ==> matching_paren(s@, left_index as int) is None,
{
    let v = crate::syntax::chars_of(s);
    matching_paren_in(&v, left_index)
}

} // verus!
