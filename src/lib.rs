//! A small glob-like pattern engine over bytes: a compiler from pattern text to
//! a sequence of matcher elements, and an anchored backtracking matcher that
//! reports one captured byte string per wildcard-like element.
pub mod charset;
pub mod pattern;
pub mod syntax;
pub mod matching;
pub mod laws;
pub mod render;

pub use charset::char_in_impl;
pub use matching::CheckResult;
pub use pattern::Pattern;
pub use syntax::ParseError;
