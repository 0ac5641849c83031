//! One puzzle session: the hidden target, the examples so far, and the guess.
use vstd::prelude::*;
use crate::matcher::{Example, Matcher, edged, pattern_compiles, pattern_matches};
use crate::order::text_eq;
use crate::refine::{candidate, refine_guess};
use crate::syntax::{chars_of, string_of};
use crate::ui::UIContext;

verus! {

#[derive(Clone, Copy, Debug, PartialEq, Eq, Structural)]
pub enum Turn {
    InProgress,
    Finished,
}

pub struct State {
    pub rng: rand::rngs::StdRng,
    pub title_screen: bool,
    /// The example being typed.
    pub text: String,
    /// The hidden target.
    pub regex: Matcher,
    /// The current guess; `None` before the first one.
    pub guessed_regex: Option<Matcher>,
    pub examples: Vec<Example>,
    pub turn: Turn,
    pub ui_context: UIContext,
}

/// The text of a guess, empty when there is none.
pub open spec fn guess_text(g: Option<Matcher>) -> Seq<char> {
    match g {
        Some(m) => m@,
        None => Seq::empty(),
    }
}

/// Whether some example already has the text `t`.
pub open spec fn has_example(ex: Seq<Example>, t: Seq<char>) -> bool {
    exists|i: int| 0 <= i < ex.len() && #[trigger] ex[i].text@ == t
}

impl State {
    /// The text of the current guess, empty when there is none.
    pub fn guess_str(&self) -> (r: &str)
        ensures
            r@ == guess_text(self.guessed_regex),
    {
        match &self.guessed_regex {
            Some(m) => m.as_str(),
            None => {
                proof {
                    reveal_strlit("");
                }
                ""
            },
        }
    }

    /// Appends digit `d` to the example being typed.
    pub fn type_digit(&mut self, d: u8)
        requires
            d < 4,
        ensures
            final(self).text@ == old(self).text@.push(
                if d == 0 {
                    '0'
                } else if d == 1 {
                    '1'
                } else if d == 2 {
                    '2'
                } else {
                    '3'
                },
            ),
            final(self).examples@ == old(self).examples@,
            final(self).guessed_regex == old(self).guessed_regex,
            final(self).regex == old(self).regex,
            final(self).turn == old(self).turn,
    {
        let mut v = chars_of(self.text.as_str());
        let c = if d == 0 {
            '0'
        } else if d == 1 {
            '1'
        } else if d == 2 {
            '2'
        } else {
            '3'
        };
        v.push(c);
        self.text = string_of(&v);
    }

    /// Removes the last character of the example being typed, if any.
    pub fn erase(&mut self)
        ensures
            final(self).text@ == if old(self).text@.len() == 0 {
                old(self).text@
            } else {
                old(self).text@.drop_last()
            },
            final(self).examples@ == old(self).examples@,
            final(self).guessed_regex == old(self).guessed_regex,
            final(self).regex == old(self).regex,
            final(self).turn == old(self).turn,
    {
        let mut v = chars_of(self.text.as_str());
        if v.len() > 0 {
            v.pop();
        }
        self.text = string_of(&v);
    }

    /// Submits the typed text. A text already submitted is ignored. A new one
    /// is labeled against the target and appended to the examples, and the
    /// guess is refined; a refined guess that does not compile is dropped
    /// and the previous guess kept. The typed text is cleared either way.
    pub fn submit(&mut self)
        ensures
            final(self).text@ == Seq::<char>::empty(),
            final(self).regex == old(self).regex,
            final(self).turn == old(self).turn,
            final(self).title_screen == old(self).title_screen,
            has_example(old(self).examples@, old(self).text@) ==> final(self).examples@ == old(
                self,
            ).examples@ && final(self).guessed_regex == old(self).guessed_regex,
            !has_example(old(self).examples@, old(self).text@) ==> {
                let ex = final(self).examples@;
                let c = candidate(guess_text(old(self).guessed_regex), ex);
                &&& ex.len() == old(self).examples@.len() + 1
                &&& ex.drop_last() == old(self).examples@
                &&& ex.last().text@ == old(self).text@
                &&& ex.last().matched == pattern_matches(old(self).regex@, old(self).text@)
                &&& pattern_compiles(edged(c)) ==> guess_text(final(self).guessed_regex) == edged(c)
                &&& !pattern_compiles(edged(c)) ==> final(self).guessed_regex == old(
                    self,
                ).guessed_regex
            },
    {
        let mut seen = false;
        let mut i: usize = 0;
        while i < self.examples.len()
            invariant
                i <= self.examples@.len(),
                seen == exists|j: int| 0 <= j < i && #[trigger] self.examples@[j].text@ == self.text@,
            decreases self.examples.len() - i,
        {
            if self.examples[i].text == self.text {
                seen = true;
            }
            i = i + 1;
        }
        if !seen {
            let example = Example::new(self.text.as_str(), &self.regex);
            self.examples.push(example);
            let refined = refine_guess(self.guess_str(), &self.examples);
            match refined {
                Some(m) => {
                    self.guessed_regex = Some(m);
                },
                None => {},
            }
        }
        self.text = String::new();
    }

    /// Ends the puzzle when the guess reads exactly as the target.
    pub fn update_turn(&mut self)
        ensures
            final(self).turn == if old(self).turn == Turn::InProgress && old(self).regex@
                == guess_text(old(self).guessed_regex) {
                Turn::Finished
            } else {
                old(self).turn
            },
            final(self).examples@ == old(self).examples@,
            final(self).guessed_regex == old(self).guessed_regex,
            final(self).regex == old(self).regex,
            final(self).text == old(self).text,
    {
        if self.turn == Turn::InProgress {
            let target = chars_of(self.regex.as_str());
            let guess = chars_of(self.guess_str());
            if text_eq(&target, &guess) {
                self.turn = Turn::Finished;
            }
        }
    }
}

} // verus!
