//! Export of diagrams to textual diagramming notations.

use vstd::prelude::*;
use crate::diagram::{Diagram, DiagramView};
use crate::ids::{id_hex, ElementId};

verus! {

/// How one character is escaped in exported text: a double quote gains a
/// backslash, a newline becomes a space, everything else is kept.
pub open spec fn escape_char(c: char) -> Seq<char> {
    if c == '"' {
        seq!['\\', '"']
    } else if c == '\n' {
        seq![' ']
    } else {
        seq![c]
    }
}

/// The whole string escaped character by character.
pub open spec fn escaped(s: Seq<char>) -> Seq<char>
    decreases s.len(),
{
    if s.len() == 0 {
        Seq::empty()
    } else {
        escaped(s.drop_last()) + escape_char(s.last())
    }
}

/// The textual id an exporter gives an element: a fixed prefix plus the
/// identifier in compact hex form.
pub open spec fn exported_id(id: ElementId) -> Seq<char> {
    "elem_"@ + id_hex(id.0)
}

/// Escaping one more character extends the escaped prefix.
pub proof fn lemma_escaped_take(s: Seq<char>, i: int)
    requires
        0 <= i < s.len(),
    ensures
        escaped(s.take(i + 1)) == escaped(s.take(i)) + escape_char(s[i]),
{
    assert(s.take(i + 1).drop_last() =~= s.take(i));
    assert(s.take(i + 1).last() == s[i]);
}

/// A family of pure functions from a diagram to text in some notation.
pub trait DiagramExporter {
    /// The exact text this exporter produces for a diagram model; an
    /// implementation that does not say otherwise promises nothing.
    open spec fn spec_export(&self, d: DiagramView) -> Seq<char> {
        Seq::empty()
    }

    /// The file extension conventionally used for this notation.
    open spec fn spec_extension(&self) -> Seq<char> {
        Seq::empty()
    }

    /// Renders the diagram; a pure function of the diagram's model.
    fn export(&self, diagram: &Diagram) -> (r: String)
        ensures
            r@ == self.spec_export(diagram@),
    ;

    /// The notation's file extension.
    fn file_extension(&self) -> (r: &'static str)
        ensures
            r@ == self.spec_extension(),
    ;
}

} // verus!
