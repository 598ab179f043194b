//! Styled dialogue text for a character-grid display: markup is turned into
//! styled segments, styled lines are wrapped into rows of grapheme clusters,
//! and a line is revealed cluster by cluster as time passes.

mod glitch;
pub mod grapheme;
pub mod markup;
pub mod order;
pub mod style;
pub mod typewriter;
pub mod util;
pub mod widgets;
pub mod wrap;
