//! Text layout and styling for character-cell printers: greedy word
//! wrapping, box framing with border glyph tables, and the device commands
//! that apply and revert a set of text styles around printed lines.

use vstd::prelude::*;

pub mod layout;
pub mod style;
pub mod output;
pub mod rejoin;

verus! {

} // verus!
