//! The glitch effect: combining marks stacked onto the characters of a text.

use vstd::prelude::*;

verus! {

/// Runs `zalgo::Generator::gen` on `text`, with marks above, through and below
/// each character at the `ZalgoSize::Mini` setting, into an empty buffer, and
/// returns the buffer.
///
/// The generator draws the marks from the thread's random number generator, so
/// nothing is claimed of the text that comes back: two calls on the same text
/// may differ.
#[verifier::external_body]
pub(crate) fn glitch_text(text: &str) -> (glitched: String) {
    let mut generator = zalgo::Generator::new();
    let mut glitched = String::new();
    let args = zalgo::GeneratorArgs::new(true, true, true, zalgo::ZalgoSize::Mini);
    generator.gen(text, &mut glitched, &args);
    glitched
}

} // verus!
