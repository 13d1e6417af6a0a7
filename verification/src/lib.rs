//! Lexing for a Django-style template dialect.
//!
//! Everything in this crate works on byte offsets into the raw template
//! text: every token is located by a `(start_byte, length_bytes)` span, and
//! no token ever owns a copy of the text it covers.

pub mod common;
pub mod ifcondition;
pub mod load;
pub mod tag;

use vstd::prelude::*;

verus! {

/// Length in bytes of the opening marker of a block tag (`{%`).
pub const START_TAG_LEN: usize = 2;

/// Length in bytes of the closing marker of a block tag (`%}`).
pub const END_TAG_LEN: usize = 2;

/// Length in bytes of the opening wrapper of a translated string (`_(`).
pub const START_TRANSLATE_LEN: usize = 2;

/// Length in bytes of the closing wrapper of a translated string (`)`).
pub const END_TRANSLATE_LEN: usize = 1;

/// Length in bytes of a quote character delimiting a text literal.
pub const QUOTE_LEN: usize = 1;

/// An immutable view over the raw template text.  All spans handed to it
/// are in bytes of this text.
pub struct TemplateString<'t>(pub &'t [u8]);

impl<'t> TemplateString<'t> {
    /// The substring covered by a span, as raw bytes.
    pub fn content(&self, at: (usize, usize)) -> (r: &'t [u8])
        requires
            at.0 + at.1 <= self.0@.len(),
        ensures
            r@ == self.0@.subrange(at.0 as int, at.0 + at.1),
    {
        proof {
            vstd::slice::axiom_spec_len(self.0);
        }
        vstd::slice::slice_subrange(self.0, at.0, at.0 + at.1)
    }
}

} // verus!
