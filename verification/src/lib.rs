//! A spaced-repetition study engine.
//!
//! Users author flashcard-like items containing fill-in-the-blank and
//! single-select elements. The engine parses authored text into structured
//! items, decides which items are due for review, checks submitted answers
//! against the accepted ones, and reschedules each item's next review from
//! the observed recall quality.

pub mod blocks;
pub mod codec;
pub mod parsing;
pub mod recall;
pub mod schedule;
pub mod store;
