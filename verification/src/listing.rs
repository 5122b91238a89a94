//! Turning rows into display lines.
//!
//! The core knows nothing of color or alignment beyond producing each row's
//! text: a row-producing entity offers a single "produce one display line"
//! capability, and `numbered_row` prefixes the line with its right-aligned
//! row number. Highlighting the focused row is the renderer's concern and
//! changes no text.

use vstd::prelude::*;

use crate::context::HEADER_OFFSET;
use crate::strings::dec_digits;
use crate::strings::push_char;
use crate::strings::push_dec;

verus! {

/// A row that can render itself as one display line.
pub trait Listable {
    /// The text of the row's display line.
    spec fn spec_line(&self) -> Seq<char>;

    /// Produces the row's display line.
    fn line(&self) -> (r: String)
        ensures
            r@ == self.spec_line(),
    ;
}

impl Listable for String {
    open spec fn spec_line(&self) -> Seq<char> {
        self@
    }

    fn line(&self) -> (r: String) {
        self.clone()
    }
}

impl Listable for &str {
    open spec fn spec_line(&self) -> Seq<char> {
        self@
    }

    fn line(&self) -> (r: String) {
        String::from_str(self)
    }
}

/// The label in front of a row: the row number for entry rows, a blank for
/// the header rows above them.
pub open spec fn spec_row_label(row: u16) -> Seq<char> {
    if row > HEADER_OFFSET {
        dec_digits((row - HEADER_OFFSET) as nat)
    } else {
        seq![' ']
    }
}

/// `s` right-aligned in a field of three characters: padded with spaces on
/// the left, or unchanged when already that wide.
pub open spec fn spec_pad_left3(s: Seq<char>) -> Seq<char> {
    if s.len() == 0 {
        seq![' ', ' ', ' ']
    } else if s.len() == 1 {
        seq![' ', ' '] + s
    } else if s.len() == 2 {
        seq![' '] + s
    } else {
        s
    }
}

/// One display line of a pane: the row's number (blank above the first
/// entry), right-aligned in three columns, followed by the row's own line.
/// Whether `row` is the focused row never changes the text; the renderer
/// alone highlights it.
#[allow(unused_variables)]
pub fn numbered_row<L: Listable>(row: u16, focused_row: u16, content: &L) -> (r: String)
    ensures
        r@ == spec_pad_left3(spec_row_label(row)) + content.spec_line(),
{
    let mut label = String::new();
    if row > HEADER_OFFSET {
        push_dec(&mut label, row - HEADER_OFFSET);
    } else {
        push_char(&mut label, ' ');
    }
    let mut out = String::new();
    let width = label.as_str().unicode_len();
    if width == 1 {
        push_char(&mut out, ' ');
        push_char(&mut out, ' ');
    } else if width == 2 {
        push_char(&mut out, ' ');
    }
    out.append(label.as_str());
    let line = content.line();
    out.append(line.as_str());
    proof {
        assert(out@ =~= spec_pad_left3(spec_row_label(row)) + content.spec_line());
    }
    out
}

} // verus!
