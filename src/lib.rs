//! Canonicalization, generation and refinement of small regular expressions
//! over the digits `0` to `3`.
//!
//! Patterns are handled as text. Every rewrite is specified by a spec function
//! over `Seq<char>`, and the executable code is proved to compute it.
pub mod canon;
pub mod classes;
pub mod game;
pub mod generate;
pub mod input;
pub mod matcher;
pub mod merge;
pub mod order;
pub mod parens;
pub mod refine;
pub mod syntax;
pub mod ui;

pub use canon::{
    collect_sub_regexes, convert_empty_or_plus_to_star, convert_star_to_plus, get_sub_regexes,
    simplify_regex, simplify_regex_once, sort_sub_regexes,
};
pub use classes::get_matching_paren_index;
pub use game::{State, Turn};
pub use generate::{generate_regex, RERule, Times};
pub use input::{Event, FrameInput, KeyCode, read_events};
pub use matcher::{edged_regex, Example, Matcher};
pub use merge::merge_into_classes;
pub use parens::remove_parens;
pub use refine::refine_guess;
pub use ui::{
    button_look, do_button, inside_rect, ButtonLook, ButtonSpec, Color, Point, Rect, Size,
    UIContext, UiId,
};
