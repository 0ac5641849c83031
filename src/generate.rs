//! Random generation of puzzle patterns.
use vstd::prelude::*;
use rand::Rng;
use crate::canon::{canonicalize, sort_branches_spec, simplify_regex_chars, sort_sub_regexes_chars, lemma_canonical_sorted, lemma_canonicalize_idempotent};
use crate::classes::{class_text, digit_char};
use crate::matcher::{Matcher, edged, pattern_compiles, pattern_matches, edged_regex};
use crate::syntax::{append_chars, string_of, strip_anchors};

verus! {

/// `rand::rngs::StdRng`, carried as an opaque value.
#[verifier::external_type_specification]
#[verifier::external_body]
pub struct ExStdRng(rand::rngs::StdRng);

/// Relies on `rand::Rng::gen_range`: a value drawn from `0..bound`.
#[verifier::external_body]
fn random_below(rng: &mut rand::rngs::StdRng, bound: u32) -> (r: u32)
    requires
        bound > 0,
    ensures
        r < bound,
{
    rng.gen_range(0..bound)
}

/// A repetition suffix.
#[derive(Clone, Copy, Debug, PartialEq, Eq, Structural)]
pub enum Times {
    Once,
    ZeroOrMore,
    OneOrMore,
}

pub open spec fn times_text(t: Times) -> Seq<char> {
    match t {
        Times::Once => Seq::empty(),
        Times::ZeroOrMore => seq!['*'],
        Times::OneOrMore => seq!['+'],
    }
}

impl Times {
    /// The suffix: nothing, `*` or `+`.
    pub fn as_str(&self) -> (r: &'static str)
        ensures
            r@ == times_text(*self),
    {
        proof {
            reveal_strlit("");
            reveal_strlit("*");
            reveal_strlit("+");
        }
        match self {
            Times::Once => "",
            Times::ZeroOrMore => "*",
            Times::OneOrMore => "+",
        }
    }

    /// One of the three, drawn uniformly.
    pub fn random(rng: &mut rand::rngs::StdRng) -> (r: Times) {
        match random_below(rng, 3) {
            0 => Times::Once,
            1 => Times::ZeroOrMore,
            _ => Times::OneOrMore,
        }
    }
}

/// The rule chosen at one node of a generated pattern.
#[derive(Clone, Copy, Debug, PartialEq, Eq, Structural)]
pub enum RERule {
    Digit(Times),
    Or,
    Class(Times),
    Group(Times),
    Dot,
}

impl RERule {
    /// One of the five rules, drawn uniformly, with a uniform suffix.
    pub fn random(rng: &mut rand::rngs::StdRng) -> (r: RERule) {
        match random_below(rng, 5) {
            0 => RERule::Digit(Times::random(rng)),
            1 => RERule::Or,
            2 => RERule::Class(Times::random(rng)),
            3 => RERule::Group(Times::random(rng)),
            _ => RERule::Dot,
        }
    }

    /// One of the three rules that do not recurse, drawn uniformly.
    pub fn random_leaf(rng: &mut rand::rngs::StdRng) -> (r: RERule)
        ensures
            r is Digit || r is Class || r is Dot,
    {
        match random_below(rng, 3) {
            0 => RERule::Digit(Times::random(rng)),
            1 => RERule::Class(Times::random(rng)),
            _ => RERule::Dot,
        }
    }
}

/// How a generated pattern was built.
pub enum Derivation {
    Digit(char, Times),
    Class(Seq<char>, Times),
    Dot,
    Or(Box<Derivation>, Box<Derivation>),
    /// A quantified group around the inner pattern.
    Group(Box<Derivation>, Times),
    /// A group left out because it would not matter: the inner pattern alone.
    Inlined(Box<Derivation>),
}

/// The classes the generator draws from: 2 or 3 distinct digits, ascending.
pub open spec fn catalogue_class(c: Seq<char>) -> bool {
    class_text(c) && c.len() >= 4 && forall|i: int| 1 <= i < c.len() - 2 ==> #[trigger] c[i] < c[i + 1]
}

/// Whether a group around `inner` changes anything: the anchored inner
/// pattern compiles and does not match the empty string.
pub open spec fn group_matters(inner: Seq<char>) -> bool {
    let p = seq!['^'] + inner + seq!['$'];
    pattern_compiles(p) && !pattern_matches(p, Seq::empty())
}

pub open spec fn derivation_text(d: Derivation) -> Seq<char>
    decreases d,
{
    match d {
        Derivation::Digit(c, t) => seq![c] + times_text(t),
        Derivation::Class(c, t) => c + times_text(t),
        Derivation::Dot => seq!['.'],
        Derivation::Or(a, b) => derivation_text(*a).push('|') + derivation_text(*b),
        Derivation::Group(a, t) => seq!['('] + derivation_text(*a) + seq![')'] + times_text(t),
        Derivation::Inlined(a) => derivation_text(*a),
    }
}

/// Whether `d` is a derivation the generator can make starting at `depth`:
/// below `max` any rule, past it only digits, classes and the wildcard.
pub open spec fn derivation_fits(d: Derivation, depth: int, max: int) -> bool
    decreases d,
{
    match d {
        Derivation::Digit(c, _) => digit_char(c),
        Derivation::Class(c, _) => catalogue_class(c),
        Derivation::Dot => true,
        Derivation::Or(a, b) => depth <= max && derivation_fits(*a, depth + 1, max)
            && derivation_fits(*b, depth + 1, max),
        Derivation::Group(a, t) => depth <= max && t != Times::Once && derivation_fits(
            *a,
            depth + 1,
            max,
        ) && group_matters(derivation_text(*a)),
        Derivation::Inlined(a) => depth <= max && derivation_fits(*a, depth + 1, max)
            && !group_matters(derivation_text(*a)),
    }
}

/// The text of a catalogue class drawn from `k`.
fn class_for(k: u32) -> (r: Vec<char>)
    ensures
        catalogue_class(r@),
{
    let (a, b, c): (char, char, char) = match k {
        1 => ('0', '1', ' '),
        2 => ('0', '2', ' '),
        3 => ('0', '3', ' '),
        4 => ('1', '2', ' '),
        5 => ('1', '3', ' '),
        6 => ('2', '3', ' '),
        7 => ('0', '1', '2'),
        8 => ('0', '1', '3'),
        9 => ('0', '2', '3'),
        _ => ('1', '2', '3'),
    };
    let mut r: Vec<char> = Vec::new();
    r.push('[');
    r.push(a);
    r.push(b);
    if c != ' ' {
        r.push(c);
    }
    r.push(']');
    r
}

fn push_times(s: &mut Vec<char>, t: Times)
    ensures
        final(s)@ == old(s)@ + times_text(t),
{
    match t {
        Times::Once => {
            assert(old(s)@ + times_text(t) =~= old(s)@);
        },
        Times::ZeroOrMore => {
            s.push('*');
            assert(final(s)@ =~= old(s)@ + times_text(t));
        },
        Times::OneOrMore => {
            s.push('+');
            assert(final(s)@ =~= old(s)@ + times_text(t));
        },
    }
}

/// Whether a group around `inner` would matter (see [`group_matters`]).
fn group_matters_exec(inner: &Vec<char>) -> (r: bool)
    ensures
        r == group_matters(inner@),
{
    let mut p: Vec<char> = Vec::new();
    p.push('^');
    append_chars(&mut p, inner);
    p.push('$');
    assert(p@ =~= seq!['^'] + inner@ + seq!['$']);
    let ps = string_of(&p);
    let empty = String::new();
    match Matcher::new(ps.as_str()) {
        Ok(m) => !m.is_match(empty.as_str()),
        Err(_) => false,
    }
}

/// Appends to `s` one randomly built pattern, starting at nesting `depth`.
pub fn generate_regex_helper(rng: &mut rand::rngs::StdRng, s: Vec<char>, depth: u8, max: u8) -> (r: Vec<char>)
    requires
        max < 255,
        depth <= max + 1,
    ensures
        exists|d: Derivation|
            derivation_fits(d, depth as int, max as int) && r@ == s@ + #[trigger] derivation_text(d),
    decreases max + 1 - depth,
{
    let rule = if depth <= max {
        RERule::random(rng)
    } else {
        RERule::random_leaf(rng)
    };
    let mut s = s;
    let ghost s0 = s@;
    match rule {
        RERule::Digit(t) => {
            let c = match random_below(rng, 4) {
                0 => '0',
                1 => '1',
                2 => '2',
                _ => '3',
            };
            s.push(c);
            push_times(&mut s, t);
            let ghost d = Derivation::Digit(c, t);
            assert(s@ =~= s0 + derivation_text(d));
            assert(derivation_fits(d, depth as int, max as int));
            s
        },
        RERule::Or => {
            let a = generate_regex_helper(rng, s, depth + 1, max);
            let ghost da = choose|d: Derivation|
                derivation_fits(d, depth + 1, max as int) && a@ == s0 + #[trigger] derivation_text(d);
            let mut a = a;
            a.push('|');
            let ghost a1 = a@;
            let b = generate_regex_helper(rng, a, depth + 1, max);
            let ghost db = choose|d: Derivation|
                derivation_fits(d, depth + 1, max as int) && b@ == a1 + #[trigger] derivation_text(d);
            let ghost d = Derivation::Or(Box::new(da), Box::new(db));
            assert(b@ =~= s0 + derivation_text(d));
            assert(derivation_fits(d, depth as int, max as int));
            b
        },
        RERule::Class(t) => {
            let k = random_below(rng, 11);
            let c = class_for(k);
            append_chars(&mut s, &c);
            push_times(&mut s, t);
            let ghost d = Derivation::Class(c@, t);
            assert(s@ =~= s0 + derivation_text(d));
            assert(derivation_fits(d, depth as int, max as int));
            s
        },
        RERule::Group(times) => {
            let t = match times {
                Times::Once => {
                    if random_below(rng, 2) == 0 {
                        Times::ZeroOrMore
                    } else {
                        Times::OneOrMore
                    }
                },
                other => other,
            };
            let inner = generate_regex_helper(rng, Vec::new(), depth + 1, max);
            let ghost di = choose|d: Derivation|
                derivation_fits(d, depth + 1, max as int) && inner@ == Seq::<char>::empty()
                    + #[trigger] derivation_text(d);
            assert(inner@ =~= derivation_text(di));
            if group_matters_exec(&inner) {
                s.push('(');
                append_chars(&mut s, &inner);
                s.push(')');
                push_times(&mut s, t);
                let ghost d = Derivation::Group(Box::new(di), t);
                assert(s@ =~= s0 + derivation_text(d));
                assert(derivation_fits(d, depth as int, max as int));
                s
            } else {
                append_chars(&mut s, &inner);
                let ghost d = Derivation::Inlined(Box::new(di));
                assert(s@ =~= s0 + derivation_text(d));
                assert(derivation_fits(d, depth as int, max as int));
                s
            }
        },
        RERule::Dot => {
            s.push('.');
            let ghost d = Derivation::Dot;
            assert(s@ =~= s0 + derivation_text(d));
            s
        },
    }
}

/// How many times [`generate_regex`] builds a pattern before it gives up.
pub const GENERATION_ATTEMPTS: u32 = 100;

/// A random puzzle pattern: built at depth 3 and anchored, sorted and
/// canonicalized, then anchored again and compiled. `None` only when no
/// attempt compiled, and then some pattern the generator can build failed
/// to compile.
pub fn generate_regex(rng: &mut rand::rngs::StdRng) -> (r: Option<Matcher>)
    ensures
        r matches Some(m) ==> {
            &&& pattern_compiles(m@)
            &&& exists|d: Derivation|
                derivation_fits(d, 0, 3) && m@ == edged(
                    canonicalize(
                        sort_branches_spec(seq!['^'] + #[trigger] derivation_text(d) + seq!['$']),
                    ),
                )
            &&& canonicalize(strip_anchors(m@)) == strip_anchors(m@)
        },
        r is None ==> exists|d: Derivation|
            derivation_fits(d, 0, 3) && !pattern_compiles(
                edged(
                    canonicalize(
                        sort_branches_spec(seq!['^'] + #[trigger] derivation_text(d) + seq!['$']),
                    ),
                ),
            ),
{
    let mut attempt: u32 = 0;
    while attempt < GENERATION_ATTEMPTS
        invariant
            attempt <= GENERATION_ATTEMPTS,
            attempt > 0 ==> exists|d: Derivation|
                derivation_fits(d, 0, 3) && !pattern_compiles(
                    edged(
                        canonicalize(
                            sort_branches_spec(seq!['^'] + #[trigger] derivation_text(d) + seq!['$']),
                        ),
                    ),
                ),
        decreases GENERATION_ATTEMPTS - attempt,
    {
        let mut start: Vec<char> = Vec::new();
        start.push('^');
        let g = generate_regex_helper(rng, start, 0, 3);
        let ghost d = choose|d: Derivation|
            derivation_fits(d, 0, 3) && g@ == seq!['^'] + #[trigger] derivation_text(d);
        let mut g = g;
        g.push('$');
        assert(g@ =~= seq!['^'] + derivation_text(d) + seq!['$']);
        let sorted = sort_sub_regexes_chars(&g);
        let canonical = simplify_regex_chars(&sorted);
        let text = string_of(&canonical);
        match edged_regex(text.as_str()) {
            Ok(m) => {
                proof {
                    lemma_canonical_sorted(sorted@);
                    lemma_canonicalize_idempotent(sorted@);
                    lemma_edged_strip(canonical@);
                }
                return Some(m);
            },
            Err(_) => {},
        }
        attempt = attempt + 1;
    }
    None
}

/// Anchoring a text that carries no anchors, then removing them, gives it back.
pub proof fn lemma_edged_strip(c: Seq<char>)
    requires
        strip_anchors(c) == c,
    ensures
        strip_anchors(edged(c)) == c,
{
    let a = if c.len() > 0 && c[0] == '^' { c } else { seq!['^'] + c };
    if c.len() > 0 && c[0] == '^' {
        assert(strip_anchors(c).len() < c.len());
    }
    assert(a =~= seq!['^'] + c);
    if c.len() > 0 && c.last() == '$' {
        assert(strip_anchors(c).len() < c.len());
    }
    if c.len() == 0 {
        assert(edged(c) =~= seq!['^', '$']);
        assert(strip_anchors(edged(c)) =~= c);
    } else {
        assert(a.last() == c.last());
        assert(edged(c) =~= seq!['^'] + c + seq!['$']);
        assert(strip_anchors(edged(c)) =~= c);
    }
}

} // verus!
