//! Compiled patterns, through the `regex` crate, and labeled examples.
use vstd::prelude::*;
use crate::syntax::{chars_of, string_of};

verus! {

/// `regex::Regex`, carried as an opaque value.
#[verifier::external_type_specification]
#[verifier::external_body]
pub struct ExRegex(regex::Regex);

/// `regex::Error`, carried as an opaque value.
#[verifier::external_type_specification]
#[verifier::external_body]
pub struct ExRegexError(regex::Error);

/// Whether the `regex` crate accepts `pattern`.
pub uninterp spec fn pattern_compiles(pattern: Seq<char>) -> bool;

/// Whether the regex compiled from `pattern` matches somewhere in `text`.
pub uninterp spec fn pattern_matches(pattern: Seq<char>, text: Seq<char>) -> bool;

/// A compiled pattern together with the text it was compiled from.
pub struct Matcher {
    regex: regex::Regex,
    source: String,
}

impl View for Matcher {
    type V = Seq<char>;

    closed spec fn view(&self) -> Seq<char> {
        self.source@
    }
}

/// Relies on `regex::Regex::new`: compiles `pattern`, or reports why it cannot.
#[verifier::external_body]
fn compile(pattern: &str) -> (r: Result<Matcher, regex::Error>)
    ensures
        r is Ok <==> pattern_compiles(pattern@),
        r matches Ok(m) ==> m@ == pattern@,
{
    match regex::Regex::new(pattern) {
        Ok(regex) => Ok(Matcher { regex, source: pattern.to_string() }),
        Err(e) => Err(e),
    }
}

/// Relies on `regex::Regex::is_match`: whether the compiled pattern matches
/// somewhere in `text`.
#[verifier::external_body]
fn regex_is_match(m: &Matcher, text: &str) -> (r: bool)
    ensures
        r == pattern_matches(m@, text@),
{
    m.regex.is_match(text)
}

impl Matcher {
    /// Compiles `pattern` as it stands.
    pub fn new(pattern: &str) -> (r: Result<Matcher, regex::Error>)
        ensures
            r is Ok <==> pattern_compiles(pattern@),
            r matches Ok(m) ==> m@ == pattern@,
    {
        compile(pattern)
    }

    /// Whether the pattern matches somewhere in `text`.
    pub fn is_match(&self, text: &str) -> (r: bool)
        ensures
            r == pattern_matches(self@, text@),
    {
        regex_is_match(self, text)
    }

    /// The text the pattern was compiled from.
    pub fn as_str(&self) -> (r: &str)
        ensures
            r@ == self@,
    {
        self.source.as_str()
    }
}

/// `s` anchored at both ends: `^` put in front unless it starts with one, `$`
/// put at the end unless it ends with one.
pub open spec fn edged(s: Seq<char>) -> Seq<char> {
    let a = if s.len() > 0 && s[0] == '^' { s } else { seq!['^'] + s };
    if a.last() == '$' { a } else { a.push('$') }
}

/// Whether the anchored form of `p` compiles and matches all of `t`.
pub open spec fn admits(p: Seq<char>, t: Seq<char>) -> bool {
    pattern_compiles(edged(p)) && pattern_matches(edged(p), t)
}

/// The anchored text of `s`.
pub fn edged_chars(s: &Vec<char>) -> (r: Vec<char>)
    ensures
        r@ == edged(s@),
{
    let mut r: Vec<char> = Vec::new();
    if !(s.len() > 0 && s[0] == '^') {
        r.push('^');
    }
    crate::syntax::append_chars(&mut r, s);
    let ghost a = r@;
    assert(a == if s@.len() > 0 && s@[0] == '^' { s@ } else { seq!['^'] + s@ }) by {
        if !(s@.len() > 0 && s@[0] == '^') {
            assert(seq!['^'] + s@ =~= seq!['^'] + s@);
        } else {
            assert(r@ =~= s@);
        }
    }
    if r[r.len() - 1] != '$' {
        r.push('$');
    }
    r
}

/// Compiles `s` anchored at both ends (see [`edged`]).
pub fn edged_regex(s: &str) -> (r: Result<Matcher, regex::Error>)
    ensures
        r is Ok <==> pattern_compiles(edged(s@)),
        r matches Ok(m) ==> m@ == edged(s@),
{
    let v = chars_of(s);
    let e = edged_chars(&v);
    let text = string_of(&e);
    compile(text.as_str())
}

/// Whether `p`, anchored, compiles and matches all of `text` (see [`admits`]).
pub fn admits_text(p: &Vec<char>, text: &str) -> (r: bool)
    ensures
        r == admits(p@, text@),
{
    let e = edged_chars(p);
    let ps = string_of(&e);
    match compile(ps.as_str()) {
        Ok(m) => regex_is_match(&m, text),
        Err(_) => false,
    }
}

/// One sample string, with whether the target pattern matched it.
pub struct Example {
    pub text: String,
    pub matched: bool,
}

impl Example {
    /// Labels `text` by testing it against `regex`.
    pub fn new(text: &str, regex: &Matcher) -> (r: Example)
        ensures
            r.text@ == text@,
            r.matched == pattern_matches(regex@, text@),
    {
        Example { text: text.to_owned(), matched: regex_is_match(regex, text) }
    }
}

} // verus!
