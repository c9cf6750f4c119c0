//! Export to the Mermaid C4 notation.

use vstd::prelude::*;
use vstd::string::{StrSliceExecFns, StringExecFns};
use crate::diagram::{elem_views, rel_views, Diagram, DiagramType, DiagramView};
use crate::elements::{
    description_of, name_of, Element, ElementType, ElementTypeView, ElementView,
};
use crate::export::{escape_char, escaped, exported_id, lemma_escaped_take, DiagramExporter};
use crate::relationship::{Relationship, RelationshipView};
use crate::text::{chars_of, string_from_chars};

verus! {

/// Exports diagrams as Mermaid C4 source.
#[derive(PartialEq, Eq, Structural, Debug)]
pub struct MermaidExporter;

/// The header keyword chosen by diagram type.
pub open spec fn mermaid_keyword(t: DiagramType) -> Seq<char> {
    match t {
        DiagramType::SystemContext => "C4Context"@,
        DiagramType::Container => "C4Container"@,
    }
}

/// The macro call rendering one element. Mermaid has no distinct macros for
/// database or queue containers: every container uses `Container`.
pub open spec fn mermaid_element_line(e: ElementView) -> Seq<char> {
    let id = exported_id(e.id);
    let name = escaped(name_of(e.element_type));
    let desc = escaped(description_of(e.element_type));
    match e.element_type {
        ElementTypeView::Person { is_external, .. } => (if is_external {
            "    Person_Ext("@
        } else {
            "    Person("@
        }) + id + ", \""@ + name + "\", \""@ + desc + "\")"@,
        ElementTypeView::SoftwareSystem { is_external, .. } => (if is_external {
            "    System_Ext("@
        } else {
            "    System("@
        }) + id + ", \""@ + name + "\", \""@ + desc + "\")"@,
        ElementTypeView::Container { technology, .. } => {
            let tech = escaped(technology);
            if tech.len() == 0 {
                "    Container("@ + id + ", \""@ + name + "\", \""@ + desc + "\")"@
            } else {
                "    Container("@ + id + ", \""@ + name + "\", \""@ + desc + "\", \""@ + tech
                    + "\")"@
            }
        },
    }
}

/// The macro call rendering one relationship.
pub open spec fn mermaid_rel_line(r: RelationshipView) -> Seq<char> {
    let src = exported_id(r.source_id);
    let tgt = exported_id(r.target_id);
    let desc = escaped(r.description);
    match r.technology {
        Some(t) => "    BiRel("@ + src + ", "@ + tgt + ", \""@ + desc + "\", \""@ + escaped(t)
            + "\")"@,
        None => "    BiRel("@ + src + ", "@ + tgt + ", \""@ + desc + "\")"@,
    }
}

/// All element lines, each followed by a newline, in list order.
pub open spec fn mermaid_elements(elems: Seq<ElementView>) -> Seq<char>
    decreases elems.len(),
{
    if elems.len() == 0 {
        Seq::empty()
    } else {
        mermaid_elements(elems.drop_last()) + mermaid_element_line(elems.last()) + "\n"@
    }
}

/// All relationship lines, each followed by a newline, in list order.
pub open spec fn mermaid_rels(rels: Seq<RelationshipView>) -> Seq<char>
    decreases rels.len(),
{
    if rels.len() == 0 {
        Seq::empty()
    } else {
        mermaid_rels(rels.drop_last()) + mermaid_rel_line(rels.last()) + "\n"@
    }
}

/// The complete Mermaid C4 document for a diagram.
pub open spec fn mermaid_document(d: DiagramView) -> Seq<char> {
    mermaid_keyword(d.diagram_type) + "\n"@ + (if d.name.len() == 0 {
        Seq::<char>::empty()
    } else {
        "    title "@ + escaped(d.name) + "\n"@
    }) + (if d.description.len() == 0 {
        Seq::<char>::empty()
    } else {
        "    %% "@ + escaped(d.description) + "\n"@
    }) + "\n"@ + mermaid_elements(d.elements) + "\n"@ + mermaid_rels(d.relationships)
}

proof fn lemma_mermaid_elements_take(ev: Seq<ElementView>, i: int)
    requires
        0 <= i < ev.len(),
    ensures
        mermaid_elements(ev.take(i + 1)) == mermaid_elements(ev.take(i)) + mermaid_element_line(
            ev[i],
        ) + "\n"@,
{
    assert(ev.take(i + 1).drop_last() =~= ev.take(i));
    assert(ev.take(i + 1).last() == ev[i]);
}

proof fn lemma_mermaid_rels_take(rv: Seq<RelationshipView>, i: int)
    requires
        0 <= i < rv.len(),
    ensures
        mermaid_rels(rv.take(i + 1)) == mermaid_rels(rv.take(i)) + mermaid_rel_line(rv[i]) + "\n"@,
{
    assert(rv.take(i + 1).drop_last() =~= rv.take(i));
    assert(rv.take(i + 1).last() == rv[i]);
}

impl MermaidExporter {
    pub fn new() -> (r: MermaidExporter)
        ensures
            r == (MermaidExporter),
    {
        MermaidExporter
    }

    /// The header keyword for the given diagram type.
    pub fn get_diagram_keyword(&self, diagram_type: DiagramType) -> (r: &'static str)
        ensures
            r@ == mermaid_keyword(diagram_type),
    {
        match diagram_type {
            DiagramType::SystemContext => "C4Context",
            DiagramType::Container => "C4Container",
        }
    }

    /// Escapes text for embedding in a double-quoted macro argument.
    pub fn escape_string(&self, s: &str) -> (r: String)
        ensures
            r@ == escaped(s@),
    {
        let cs = chars_of(s);
        let mut out: Vec<char> = Vec::new();
        let mut i: usize = 0;
        while i < cs.len()
            invariant
                0 <= i <= cs@.len(),
                cs@ == s@,
                out@ == escaped(s@.take(i as int)),
            decreases cs@.len() - i,
        {
            let ghost pre = out@;
            let c = cs[i];
            if c == '"' {
                out.push('\\');
                out.push('"');
            } else if c == '\n' {
                out.push(' ');
            } else {
                out.push(c);
            }
            proof {
                lemma_escaped_take(s@, i as int);
                assert(out@ =~= pre + escape_char(s@[i as int]));
            }
            i = i + 1;
        }
        proof {
            assert(s@.take(s@.len() as int) =~= s@);
        }
        string_from_chars(&out)
    }

    /// Renders one element as its macro call.
    pub fn generate_element(&self, element: &Element) -> (r: String)
        ensures
            r@ == mermaid_element_line(element@),
    {
        let name = self.escape_string(element.name());
        let description = self.escape_string(element.description());
        let id = string_from_chars(&element.id.to_hex());
        let mut out = String::new();
        match &element.element_type {
            ElementType::Person(d) => {
                if d.is_external {
                    out.append("    Person_Ext(");
                } else {
                    out.append("    Person(");
                }
                out.append("elem_");
                out.append(id.as_str());
                out.append(", \"");
                out.append(name.as_str());
                out.append("\", \"");
                out.append(description.as_str());
                out.append("\")");
            },
            ElementType::SoftwareSystem(d) => {
                if d.is_external {
                    out.append("    System_Ext(");
                } else {
                    out.append("    System(");
                }
                out.append("elem_");
                out.append(id.as_str());
                out.append(", \"");
                out.append(name.as_str());
                out.append("\", \"");
                out.append(description.as_str());
                out.append("\")");
            },
            ElementType::Container(d) => {
                let technology = self.escape_string(d.technology.as_str());
                out.append("    Container(");
                out.append("elem_");
                out.append(id.as_str());
                out.append(", \"");
                out.append(name.as_str());
                out.append("\", \"");
                out.append(description.as_str());
                if technology.as_str().is_empty() {
                    out.append("\")");
                } else {
                    out.append("\", \"");
                    out.append(technology.as_str());
                    out.append("\")");
                }
            },
        }
        proof {
            assert(out@ =~= mermaid_element_line(element@));
        }
        out
    }

    /// Renders one relationship as a `BiRel` macro call.
    pub fn generate_relationship(&self, rel: &Relationship) -> (r: String)
        ensures
            r@ == mermaid_rel_line(rel@),
    {
        let source_id = string_from_chars(&rel.source_id.to_hex());
        let target_id = string_from_chars(&rel.target_id.to_hex());
        let description = self.escape_string(rel.description.as_str());
        let mut out = String::new();
        out.append("    BiRel(");
        out.append("elem_");
        out.append(source_id.as_str());
        out.append(", ");
        out.append("elem_");
        out.append(target_id.as_str());
        out.append(", \"");
        out.append(description.as_str());
        match &rel.technology {
            Some(tech) => {
                let technology = self.escape_string(tech.as_str());
                out.append("\", \"");
                out.append(technology.as_str());
                out.append("\")");
            },
            None => {
                out.append("\")");
            },
        }
        proof {
            assert(out@ =~= mermaid_rel_line(rel@));
        }
        out
    }
}

impl Default for MermaidExporter {
    fn default() -> (r: MermaidExporter)
        ensures
            r == (MermaidExporter),
    {
        MermaidExporter::new()
    }
}

impl DiagramExporter for MermaidExporter {
    open spec fn spec_export(&self, d: DiagramView) -> Seq<char> {
        mermaid_document(d)
    }

    open spec fn spec_extension(&self) -> Seq<char> {
        "mmd"@
    }

    fn export(&self, diagram: &Diagram) -> (r: String) {
        let mut output = String::new();
        output.append(self.get_diagram_keyword(diagram.diagram_type));
        output.append("\n");
        if !diagram.name.as_str().is_empty() {
            output.append("    title ");
            let name = self.escape_string(diagram.name.as_str());
            output.append(name.as_str());
            output.append("\n");
        }
        if !diagram.description.as_str().is_empty() {
            output.append("    %% ");
            let desc = self.escape_string(diagram.description.as_str());
            output.append(desc.as_str());
            output.append("\n");
        }
        output.append("\n");
        let ghost header = output@;
        let ghost ev = elem_views(diagram.elements@);
        let n = diagram.elements.len();
        let mut i: usize = 0;
        while i < n
            invariant
                0 <= i <= n,
                n == diagram.elements@.len(),
                ev == elem_views(diagram.elements@),
                output@ == header + mermaid_elements(ev.take(i as int)),
            decreases n - i,
        {
            let line = self.generate_element(&diagram.elements[i]);
            output.append(line.as_str());
            output.append("\n");
            proof {
                assert(ev[i as int] == diagram.elements@[i as int]@);
                lemma_mermaid_elements_take(ev, i as int);
            }
            i = i + 1;
        }
        proof {
            assert(ev.take(ev.len() as int) =~= ev);
        }
        output.append("\n");
        let ghost mid = output@;
        let ghost rv = rel_views(diagram.relationships@);
        let m = diagram.relationships.len();
        let mut k: usize = 0;
        while k < m
            invariant
                0 <= k <= m,
                m == diagram.relationships@.len(),
                rv == rel_views(diagram.relationships@),
                output@ == mid + mermaid_rels(rv.take(k as int)),
            decreases m - k,
        {
            let line = self.generate_relationship(&diagram.relationships[k]);
            output.append(line.as_str());
            output.append("\n");
            proof {
                assert(rv[k as int] == diagram.relationships@[k as int]@);
                lemma_mermaid_rels_take(rv, k as int);
            }
            k = k + 1;
        }
        proof {
            assert(rv.take(rv.len() as int) =~= rv);
            assert(output@ =~= mermaid_document(diagram@));
        }
        output
    }

    fn file_extension(&self) -> (r: &'static str) {
        "mmd"
    }
}

} // verus!
