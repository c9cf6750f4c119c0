//! The aggregate root: a diagram holding elements and the relationships
//! between them.
//!
//! The diagram maintains one invariant, referential integrity: every
//! relationship's source and target identify an element currently present.
//! `add_relationship` enforces it at insertion by silently dropping a
//! relationship with a dangling endpoint, and `remove_element` maintains it
//! on deletion by cascading removal of the connected relationships.

use vstd::prelude::*;
use vstd::string::StringExecFns;
use vstd::assert_multisets_equal;
use crate::elements::{Element, ElementView};
use crate::geometry::Position;
use crate::ids::ElementId;
use crate::relationship::{Relationship, RelationshipView};

verus! {

broadcast use vstd::seq_lib::group_filter_ensures;

/// Which C4 level the diagram shows.
#[derive(Clone, Copy, Debug, PartialEq, Eq, Structural)]
pub enum DiagramType {
    /// C1: system context diagram.
    SystemContext,
    /// C2: container diagram.
    Container,
}

impl DiagramType {
    pub fn as_str(&self) -> (r: &'static str)
        ensures
            *self is SystemContext ==> r@ == "System Context"@,
            *self is Container ==> r@ == "Container"@,
    {
        match self {
            DiagramType::SystemContext => "System Context",
            DiagramType::Container => "Container",
        }
    }

    /// Only container diagrams are meant to hold `Container` elements.
    pub fn supports_containers(&self) -> (r: bool)
        ensures
            r == (*self is Container),
    {
        matches!(self, DiagramType::Container)
    }
}

/// A complete diagram: identification, a keyed collection of elements, and
/// an ordered list of relationships.
#[derive(Clone, Debug)]
pub struct Diagram {
    pub version: String,
    pub name: String,
    pub description: String,
    pub diagram_type: DiagramType,
    pub elements: Vec<Element>,
    pub relationships: Vec<Relationship>,
}

/// Mathematical model of a `Diagram`.
pub struct DiagramView {
    pub version: Seq<char>,
    pub name: Seq<char>,
    pub description: Seq<char>,
    pub diagram_type: DiagramType,
    pub elements: Seq<ElementView>,
    pub relationships: Seq<RelationshipView>,
}

/// The models of a list of elements.
pub open spec fn elem_views(s: Seq<Element>) -> Seq<ElementView> {
    s.map_values(|e: Element| e@)
}

/// The models of a list of relationships.
pub open spec fn rel_views(s: Seq<Relationship>) -> Seq<RelationshipView> {
    s.map_values(|r: Relationship| r@)
}

impl View for Diagram {
    type V = DiagramView;

    open spec fn view(&self) -> DiagramView {
        DiagramView {
            version: self.version@,
            name: self.name@,
            description: self.description@,
            diagram_type: self.diagram_type,
            elements: elem_views(self.elements@),
            relationships: rel_views(self.relationships@),
        }
    }
}

/// Whether some element carries the given identifier.
pub open spec fn contains_id(elems: Seq<ElementView>, id: ElementId) -> bool {
    exists|i: int| 0 <= i < elems.len() && elems[i].id == id
}

/// The position of the element carrying the given identifier; meaningful
/// only under `distinct_ids`.
pub open spec fn index_of_id(elems: Seq<ElementView>, id: ElementId) -> int {
    choose|i: int| 0 <= i < elems.len() && elems[i].id == id
}

/// No two elements share an identifier.
pub open spec fn distinct_ids(elems: Seq<ElementView>) -> bool {
    forall|i: int, j: int|
        0 <= i < j < elems.len() ==> (#[trigger] elems[i]).id != (#[trigger] elems[j]).id
}

/// Referential integrity: both endpoints of every relationship are present.
pub open spec fn rels_valid(elems: Seq<ElementView>, rels: Seq<RelationshipView>) -> bool {
    forall|k: int|
        0 <= k < rels.len() ==> contains_id(elems, (#[trigger] rels[k]).source_id) && contains_id(
            elems,
            rels[k].target_id,
        )
}

/// A well-formed diagram model: unique element keys and referential
/// integrity.
pub open spec fn wf_view(d: DiagramView) -> bool {
    distinct_ids(d.elements) && rels_valid(d.elements, d.relationships)
}

/// Insertion of an element into the keyed collection: an existing element
/// with the same identifier is overwritten in place, otherwise the element
/// is appended.
pub open spec fn upsert(elems: Seq<ElementView>, e: ElementView) -> Seq<ElementView> {
    if contains_id(elems, e.id) {
        elems.update(index_of_id(elems, e.id), e)
    } else {
        elems.push(e)
    }
}

/// The elements left after removing the one with the given identifier.
pub open spec fn elems_without(elems: Seq<ElementView>, id: ElementId) -> Seq<ElementView> {
    elems.filter(|e: ElementView| e.id != id)
}

/// The relationships left after removing every one that touches the given
/// element.
pub open spec fn rels_without_element(rels: Seq<RelationshipView>, id: ElementId) -> Seq<
    RelationshipView,
> {
    rels.filter(|r: RelationshipView| r.source_id != id && r.target_id != id)
}

/// The relationships left after removing the one with the given identifier.
pub open spec fn rels_without(rels: Seq<RelationshipView>, id: ElementId) -> Seq<
    RelationshipView,
> {
    rels.filter(|r: RelationshipView| r.id != id)
}

/// The relationships whose source is the given element, in list order.
pub open spec fn rels_from(rels: Seq<RelationshipView>, x: ElementId) -> Seq<RelationshipView> {
    rels.filter(|r: RelationshipView| r.source_id == x)
}

/// The relationships whose target is the given element, in list order.
pub open spec fn rels_to(rels: Seq<RelationshipView>, x: ElementId) -> Seq<RelationshipView> {
    rels.filter(|r: RelationshipView| r.target_id == x)
}

/// The relationships touching the given element, in list order.
pub open spec fn rels_connected(rels: Seq<RelationshipView>, x: ElementId) -> Seq<
    RelationshipView,
> {
    rels.filter(|r: RelationshipView| r.source_id == x || r.target_id == x)
}

/// The incoming relationships of `x` that are not also outgoing.
pub open spec fn rels_to_only(rels: Seq<RelationshipView>, x: ElementId) -> Seq<RelationshipView> {
    rels.filter(|r: RelationshipView| r.target_id == x && r.source_id != x)
}

/// Filtering a sequence extended by one element keeps the filtered prefix
/// and appends the new element exactly when it satisfies the predicate.
pub(crate) proof fn lemma_filter_push<A>(s: Seq<A>, e: A, p: spec_fn(A) -> bool)
    ensures
        s.push(e).filter(p) == if p(e) {
            s.filter(p).push(e)
        } else {
            s.filter(p)
        },
{
    reveal(Seq::filter);
    assert(s.push(e).drop_last() =~= s);
    assert(s.push(e).last() == e);
}

/// A filter that every element satisfies keeps the sequence unchanged.
pub(crate) proof fn lemma_filter_all<A>(s: Seq<A>, p: spec_fn(A) -> bool)
    requires
        forall|i: int| 0 <= i < s.len() ==> p(#[trigger] s[i]),
    ensures
        s.filter(p) == s,
    decreases s.len(),
{
    reveal(Seq::filter);
    if s.len() > 0 {
        lemma_filter_all(s.drop_last(), p);
        assert(s.drop_last().push(s.last()) =~= s);
    }
}


/// Witnessing an element with the given identifier pins down
/// `index_of_id` under distinctness.
pub(crate) proof fn lemma_unique_index(elems: Seq<ElementView>, i: int, id: ElementId)
    requires
        distinct_ids(elems),
        0 <= i < elems.len(),
        elems[i].id == id,
    ensures
        contains_id(elems, id),
        index_of_id(elems, id) == i,
{
    assert(contains_id(elems, id));
    let k = index_of_id(elems, id);
    assert(0 <= k < elems.len() && elems[k].id == id);
    if k < i {
        assert(elems[k].id != elems[i].id);
    } else if i < k {
        assert(elems[i].id != elems[k].id);
    }
}

/// Overwriting an element by one with the same identifier preserves
/// distinctness.
pub(crate) proof fn lemma_distinct_update(elems: Seq<ElementView>, i: int, e: ElementView)
    requires
        distinct_ids(elems),
        0 <= i < elems.len(),
        elems[i].id == e.id,
    ensures
        distinct_ids(elems.update(i, e)),
{
    let upd = elems.update(i, e);
    assert forall|a: int, b: int| 0 <= a < b < upd.len() implies (#[trigger] upd[a]).id != (
    #[trigger] upd[b]).id by {
        assert(upd[a] == if a == i { e } else { elems[a] });
        assert(upd[b] == if b == i { e } else { elems[b] });
        assert(elems[a].id != elems[b].id);
    }
}

/// An identifier present before stays present after appending an element.
proof fn lemma_contains_id_push(elems: Seq<ElementView>, e: ElementView, x: ElementId)
    requires
        contains_id(elems, x),
    ensures
        contains_id(elems.push(e), x),
{
    let j = choose|j: int| 0 <= j < elems.len() && elems[j].id == x;
    assert(elems.push(e)[j].id == x);
}

/// Every member of a filtered sequence satisfies the predicate and occurs in
/// the original sequence.
pub(crate) proof fn lemma_filter_pred_all<A>(s: Seq<A>, p: spec_fn(A) -> bool)
    ensures
        forall|i: int|
            0 <= i < s.filter(p).len() ==> p(#[trigger] s.filter(p)[i]) && exists|j: int|
                0 <= j < s.len() && s[j] == s.filter(p)[i] && p(s[j]),
    decreases s.len(),
{
    reveal(Seq::filter);
    if s.len() > 0 {
        lemma_filter_pred_all(s.drop_last(), p);
        let sub = s.drop_last().filter(p);
        assert forall|i: int| 0 <= i < s.filter(p).len() implies p(#[trigger] s.filter(p)[i])
            && exists|j: int| 0 <= j < s.len() && s[j] == s.filter(p)[i] && p(s[j]) by {
            if i < sub.len() {
                assert(s.filter(p)[i] == sub[i]);
                let j = choose|j: int|
                    0 <= j < s.drop_last().len() && s.drop_last()[j] == sub[i] && p(
                        s.drop_last()[j],
                    );
                assert(s[j] == s.filter(p)[i] && p(s[j]));
            } else {
                assert(s.filter(p)[i] == s.last());
                assert(s[s.len() - 1] == s.filter(p)[i] && p(s[s.len() - 1]));
            }
        }
    }
}

/// Filtering a one-element sequence keeps or drops that element.
pub(crate) proof fn lemma_filter_one<A>(e: A, p: spec_fn(A) -> bool)
    ensures
        seq![e].filter(p) == if p(e) {
            seq![e]
        } else {
            Seq::<A>::empty()
        },
{
    reveal(Seq::filter);
    let s = seq![e];
    assert(s.drop_last() =~= Seq::<A>::empty());
    assert(Seq::<A>::empty().filter(p) == Seq::<A>::empty());
    assert(s.last() == e);
    if p(e) {
        assert(Seq::<A>::empty().push(e) =~= seq![e]);
    }
}

/// Removing one element from a sequence of distinct-id elements filters
/// exactly that identifier out.
proof fn lemma_remove_is_filter(elems: Seq<ElementView>, i: int, id: ElementId)
    requires
        distinct_ids(elems),
        0 <= i < elems.len(),
        elems[i].id == id,
    ensures
        elems.remove(i) == elems.filter(|e: ElementView| e.id != id),
{
    let p = |e: ElementView| e.id != id;
    let left = elems.subrange(0, i);
    let mid = seq![elems[i]];
    let right = elems.subrange(i + 1, elems.len() as int);
    assert(elems =~= left + mid + right);
    Seq::filter_distributes_over_add(left + mid, right, p);
    Seq::filter_distributes_over_add(left, mid, p);
    assert forall|j: int| 0 <= j < left.len() implies p(#[trigger] left[j]) by {
        assert(elems[j].id != elems[i].id);
    }
    assert forall|j: int| 0 <= j < right.len() implies p(#[trigger] right[j]) by {
        assert(elems[i + 1 + j].id != elems[i].id);
    }
    lemma_filter_all(left, p);
    lemma_filter_all(right, p);
    lemma_filter_one(elems[i], p);
    assert(!p(elems[i]));
    assert(elems.filter(p) == (left + mid + right).filter(p));
    assert(elems.remove(i) =~= left + right);
    assert((left + mid + right).filter(p) =~= left + right);
}

/// Filtering preserves distinctness of identifiers.
proof fn lemma_filter_sub_distinct(elems: Seq<ElementView>, p: spec_fn(ElementView) -> bool)
    requires
        distinct_ids(elems),
    ensures
        distinct_ids(elems.filter(p)),
    decreases elems.len(),
{
    reveal(Seq::filter);
    if elems.len() > 0 {
        lemma_filter_sub_distinct(elems.drop_last(), p);
        let sub = elems.drop_last().filter(p);
        if p(elems.last()) {
            lemma_filter_pred_all(elems.drop_last(), p);
            assert forall|a: int, b: int|
                0 <= a < b < elems.filter(p).len() implies (#[trigger] elems.filter(p)[a]).id != (
            #[trigger] elems.filter(p)[b]).id by {
                if b == elems.filter(p).len() - 1 {
                    assert(elems.filter(p)[b] == elems.last());
                    assert(elems.filter(p)[a] == sub[a]);
                    let j = choose|j: int|
                        0 <= j < elems.drop_last().len() && elems.drop_last()[j] == sub[a] && p(
                            elems.drop_last()[j],
                        );
                    assert(elems[j] == sub[a]);
                    assert(elems[j].id != elems[elems.len() - 1].id);
                } else {
                    assert(elems.filter(p)[a] == sub[a] && elems.filter(p)[b] == sub[b]);
                }
            }
        }
    }
}

/// Removing one identifier leaves every other identifier's presence
/// unchanged.
proof fn lemma_contains_id_filter(elems: Seq<ElementView>, id: ElementId, x: ElementId)
    requires
        x != id,
    ensures
        contains_id(elems.filter(|e: ElementView| e.id != id), x) == contains_id(elems, x),
{
    let p = |e: ElementView| e.id != id;
    lemma_filter_pred_all(elems, p);
    if contains_id(elems, x) {
        let j = choose|j: int| 0 <= j < elems.len() && elems[j].id == x;
        Seq::lemma_filter_contains(elems, p, j);
        assert(elems.filter(p).contains(elems[j]));
        let k = choose|k: int| 0 <= k < elems.filter(p).len() && elems.filter(p)[k] == elems[j];
        assert(elems.filter(p)[k].id == x);
    }
    if contains_id(elems.filter(p), x) {
        let k = choose|k: int| 0 <= k < elems.filter(p).len() && elems.filter(p)[k].id == x;
        let j = choose|j: int| 0 <= j < elems.len() && elems[j] == elems.filter(p)[k] && p(elems[j]);
        assert(elems[j].id == x);
    }
}

/// Overwriting the element at `i` with one carrying the same identifier
/// leaves the set of present identifiers unchanged.
proof fn lemma_contains_id_update_same(
    elems: Seq<ElementView>,
    i: int,
    e: ElementView,
    x: ElementId,
)
    requires
        0 <= i < elems.len(),
        elems[i].id == e.id,
    ensures
        contains_id(elems.update(i, e), x) == contains_id(elems, x),
{
    if contains_id(elems, x) {
        let j = choose|j: int| 0 <= j < elems.len() && elems[j].id == x;
        if j == i {
            assert(elems.update(i, e)[i].id == x);
        } else {
            assert(elems.update(i, e)[j].id == x);
        }
    }
    if contains_id(elems.update(i, e), x) {
        let j = choose|j: int| 0 <= j < elems.update(i, e).len() && elems.update(i, e)[j].id == x;
        if j == i {
            assert(elems[i].id == x);
        } else {
            assert(elems[j].id == x);
        }
    }
}

/// The index of the element carrying the given identifier, if any.
pub(crate) fn find_index(elements: &Vec<Element>, id: ElementId) -> (r: Option<usize>)
    ensures
        match r {
            Some(i) => 0 <= i < elements@.len() && elem_views(elements@)[i as int].id == id,
            None => !contains_id(elem_views(elements@), id),
        },
{
    let n = elements.len();
    let mut i: usize = 0;
    while i < n
        invariant
            0 <= i <= n,
            n == elements@.len(),
            forall|j: int| 0 <= j < i ==> (#[trigger] elem_views(elements@)[j]).id != id,
        decreases n - i,
    {
        if elements[i].id == id {
            proof {
                assert(elem_views(elements@)[i as int] == elements@[i as int]@);
            }
            return Some(i);
        }
        proof {
            assert(elem_views(elements@)[i as int] == elements@[i as int]@);
        }
        i = i + 1;
    }
    proof {
        assert(!contains_id(elem_views(elements@), id)) by {
            if contains_id(elem_views(elements@), id) {
                let j = choose|j: int|
                    0 <= j < elem_views(elements@).len() && elem_views(elements@)[j].id == id;
                assert(elem_views(elements@)[j].id != id);
            }
        }
    }
    None
}

impl Diagram {
    /// Well-formedness: unique element keys and referential integrity.
    pub open spec fn wf(&self) -> bool {
        wf_view(self@)
    }

    /// An empty diagram with the given identification and the current
    /// format version.
    pub fn new(name: &str, description: &str, diagram_type: DiagramType) -> (d: Diagram)
        ensures
            d@.version == "1.0"@,
            d@.name == name@,
            d@.description == description@,
            d@.diagram_type == diagram_type,
            d@.elements == Seq::<ElementView>::empty(),
            d@.relationships == Seq::<RelationshipView>::empty(),
            d.wf(),
    {
        let d = Diagram {
            version: crate::default_version(),
            name: String::from_str(name),
            description: String::from_str(description),
            diagram_type,
            elements: Vec::new(),
            relationships: Vec::new(),
        };
        proof {
            assert(d@.elements =~= Seq::<ElementView>::empty());
            assert(d@.relationships =~= Seq::<RelationshipView>::empty());
        }
        d
    }

    /// Whether an element with the given identifier is present.
    pub fn has_element(&self, id: ElementId) -> (r: bool)
        ensures
            r == contains_id(self@.elements, id),
    {
        find_index(&self.elements, id).is_some()
    }

    /// Inserts an element; an element already carrying the same identifier
    /// is overwritten, and relationships are untouched.
    pub fn add_element(&mut self, element: Element)
        requires
            old(self).wf(),
        ensures
            final(self).wf(),
            final(self)@ == (DiagramView {
                elements: upsert(old(self)@.elements, element@),
                ..old(self)@
            }),
    {
        let ghost old_elems: Seq<ElementView> = self@.elements;
        match find_index(&self.elements, element.id) {
            Some(i) => {
                proof {
                    assert(old_elems[i as int].id == element@.id);
                    lemma_unique_index(old_elems, i as int, element@.id);
                }
                self.elements[i] = element;
                proof {
                    assert(elem_views(self.elements@) =~= old_elems.update(i as int, element@));
                    lemma_distinct_update(old_elems, i as int, element@);
                    assert(rels_valid(self@.elements, self@.relationships)) by {
                        assert forall|k: int| 0 <= k < self@.relationships.len() implies contains_id(
                            self@.elements,
                            (#[trigger] self@.relationships[k]).source_id,
                        ) && contains_id(self@.elements, self@.relationships[k].target_id) by {
                            lemma_contains_id_update_same(
                                old_elems,
                                i as int,
                                element@,
                                self@.relationships[k].source_id,
                            );
                            lemma_contains_id_update_same(
                                old_elems,
                                i as int,
                                element@,
                                self@.relationships[k].target_id,
                            );
                        }
                    }
                }
            },
            None => {
                self.elements.push(element);
                proof {
                    assert(elem_views(self.elements@) =~= old_elems.push(element@));
                    assert(rels_valid(self@.elements, self@.relationships)) by {
                        assert forall|k: int| 0 <= k < self@.relationships.len() implies contains_id(
                            self@.elements,
                            (#[trigger] self@.relationships[k]).source_id,
                        ) && contains_id(self@.elements, self@.relationships[k].target_id) by {
                            lemma_contains_id_push(
                                old_elems,
                                element@,
                                self@.relationships[k].source_id,
                            );
                            lemma_contains_id_push(
                                old_elems,
                                element@,
                                self@.relationships[k].target_id,
                            );
                        }
                    }
                }
            },
        }
    }

    /// Looks up an element by identifier.
    pub fn get_element(&self, id: ElementId) -> (r: Option<&Element>)
        requires
            self.wf(),
        ensures
            match r {
                Some(e) => contains_id(self@.elements, id) && e@ == self@.elements[index_of_id(
                    self@.elements,
                    id,
                )] && e@.id == id,
                None => !contains_id(self@.elements, id),
            },
    {
        match find_index(&self.elements, id) {
            Some(i) => {
                proof {
                    lemma_unique_index(self@.elements, i as int, id);
                    assert(elem_views(self.elements@)[i as int] == self.elements@[i as int]@);
                }
                Some(&self.elements[i])
            },
            None => None,
        }
    }

    /// Replaces the name of the element with the given identifier; returns
    /// whether such an element was present.
    pub fn set_element_name(&mut self, id: ElementId, name: String) -> (r: bool)
        requires
            old(self).wf(),
        ensures
            final(self).wf(),
            r == contains_id(old(self)@.elements, id),
            r ==> final(self)@ == (DiagramView {
                elements: old(self)@.elements.update(
                    index_of_id(old(self)@.elements, id),
                    ElementView {
                        element_type: crate::elements::with_name(
                            old(self)@.elements[index_of_id(old(self)@.elements, id)].element_type,
                            name@,
                        ),
                        ..old(self)@.elements[index_of_id(old(self)@.elements, id)]
                    },
                ),
                ..old(self)@
            }),
            !r ==> final(self)@ == old(self)@,
    {
        let ghost old_elems: Seq<ElementView> = self@.elements;
        match find_index(&self.elements, id) {
            Some(i) => {
                proof {
                    lemma_unique_index(old_elems, i as int, id);
                }
                let e = &mut self.elements[i];
                e.set_name(name);
                proof {
                    let ghost upd = old_elems.update(
                        i as int,
                        ElementView {
                            element_type: crate::elements::with_name(
                                old_elems[i as int].element_type,
                                name@,
                            ),
                            ..old_elems[i as int]
                        },
                    );
                    assert(elem_views(self.elements@) =~= upd);
                    lemma_distinct_update(old_elems, i as int, upd[i as int]);
                    assert(rels_valid(self@.elements, self@.relationships)) by {
                        assert forall|k: int| 0 <= k < self@.relationships.len() implies contains_id(
                            self@.elements,
                            (#[trigger] self@.relationships[k]).source_id,
                        ) && contains_id(self@.elements, self@.relationships[k].target_id) by {
                            lemma_contains_id_update_same(
                                old_elems,
                                i as int,
                                upd[i as int],
                                self@.relationships[k].source_id,
                            );
                            lemma_contains_id_update_same(
                                old_elems,
                                i as int,
                                upd[i as int],
                                self@.relationships[k].target_id,
                            );
                        }
                    }
                }
                true
            },
            None => false,
        }
    }

    /// Replaces the description of the element with the given identifier;
    /// returns whether such an element was present.
    pub fn set_element_description(&mut self, id: ElementId, description: String) -> (r: bool)
        requires
            old(self).wf(),
        ensures
            final(self).wf(),
            r == contains_id(old(self)@.elements, id),
            r ==> final(self)@ == (DiagramView {
                elements: old(self)@.elements.update(
                    index_of_id(old(self)@.elements, id),
                    ElementView {
                        element_type: crate::elements::with_description(
                            old(self)@.elements[index_of_id(old(self)@.elements, id)].element_type,
                            description@,
                        ),
                        ..old(self)@.elements[index_of_id(old(self)@.elements, id)]
                    },
                ),
                ..old(self)@
            }),
            !r ==> final(self)@ == old(self)@,
    {
        let ghost old_elems: Seq<ElementView> = self@.elements;
        match find_index(&self.elements, id) {
            Some(i) => {
                proof {
                    lemma_unique_index(old_elems, i as int, id);
                }
                let e = &mut self.elements[i];
                e.set_description(description);
                proof {
                    let ghost upd = old_elems.update(
                        i as int,
                        ElementView {
                            element_type: crate::elements::with_description(
                                old_elems[i as int].element_type,
                                description@,
                            ),
                            ..old_elems[i as int]
                        },
                    );
                    assert(elem_views(self.elements@) =~= upd);
                    lemma_distinct_update(old_elems, i as int, upd[i as int]);
                    assert(rels_valid(self@.elements, self@.relationships)) by {
                        assert forall|k: int| 0 <= k < self@.relationships.len() implies contains_id(
                            self@.elements,
                            (#[trigger] self@.relationships[k]).source_id,
                        ) && contains_id(self@.elements, self@.relationships[k].target_id) by {
                            lemma_contains_id_update_same(
                                old_elems,
                                i as int,
                                upd[i as int],
                                self@.relationships[k].source_id,
                            );
                            lemma_contains_id_update_same(
                                old_elems,
                                i as int,
                                upd[i as int],
                                self@.relationships[k].target_id,
                            );
                        }
                    }
                }
                true
            },
            None => false,
        }
    }

    /// Moves the element with the given identifier to a new position;
    /// returns whether such an element was present.
    pub fn set_element_position(&mut self, id: ElementId, position: Position) -> (r: bool)
        requires
            old(self).wf(),
        ensures
            final(self).wf(),
            r == contains_id(old(self)@.elements, id),
            r ==> final(self)@ == (DiagramView {
                elements: old(self)@.elements.update(
                    index_of_id(old(self)@.elements, id),
                    ElementView {
                        position,
                        ..old(self)@.elements[index_of_id(old(self)@.elements, id)]
                    },
                ),
                ..old(self)@
            }),
            !r ==> final(self)@ == old(self)@,
    {
        let ghost old_elems: Seq<ElementView> = self@.elements;
        match find_index(&self.elements, id) {
            Some(i) => {
                proof {
                    lemma_unique_index(old_elems, i as int, id);
                }
                let e = &mut self.elements[i];
                e.position = position;
                proof {
                    let ghost upd = old_elems.update(
                        i as int,
                        ElementView { position, ..old_elems[i as int] },
                    );
                    assert(elem_views(self.elements@) =~= upd);
                    lemma_distinct_update(old_elems, i as int, upd[i as int]);
                    assert(rels_valid(self@.elements, self@.relationships)) by {
                        assert forall|k: int| 0 <= k < self@.relationships.len() implies contains_id(
                            self@.elements,
                            (#[trigger] self@.relationships[k]).source_id,
                        ) && contains_id(self@.elements, self@.relationships[k].target_id) by {
                            lemma_contains_id_update_same(
                                old_elems,
                                i as int,
                                upd[i as int],
                                self@.relationships[k].source_id,
                            );
                            lemma_contains_id_update_same(
                                old_elems,
                                i as int,
                                upd[i as int],
                                self@.relationships[k].target_id,
                            );
                        }
                    }
                }
                true
            },
            None => false,
        }
    }

    /// Removes the element with the given identifier, if present, and every
    /// relationship whose source or target it is — exactly those, and no
    /// others. Removing an absent identifier changes nothing.
    pub fn remove_element(&mut self, id: ElementId)
        requires
            old(self).wf(),
        ensures
            final(self).wf(),
            final(self)@ == (DiagramView {
                elements: elems_without(old(self)@.elements, id),
                relationships: rels_without_element(old(self)@.relationships, id),
                ..old(self)@
            }),
    {
        let ghost old_elems: Seq<ElementView> = self@.elements;
        let ghost old_rels: Seq<RelationshipView> = self@.relationships;
        match find_index(&self.elements, id) {
            Some(i) => {
                proof {
                    lemma_remove_is_filter(old_elems, i as int, id);
                }
                let _ = self.elements.remove(i);
                proof {
                    assert(elem_views(self.elements@) =~= old_elems.remove(i as int));
                }
            },
            None => {
                proof {
                    assert forall|j: int| 0 <= j < old_elems.len() implies (
                    #[trigger] old_elems[j]).id != id by {
                        if old_elems[j].id == id {
                            assert(contains_id(old_elems, id));
                        }
                    }
                    lemma_filter_all(old_elems, |e: ElementView| e.id != id);
                }
            },
        }
        proof {
            assert(elem_views(self.elements@) == elems_without(old_elems, id));
            lemma_filter_sub_distinct(old_elems, |e: ElementView| e.id != id);
        }

        // Cascade: drop every relationship that touches the element.
        let m = self.relationships.len();
        let mut kept: Vec<Relationship> = Vec::new();
        let mut k: usize = 0;
        while k < m
            invariant
                0 <= k <= m,
                m == self.relationships@.len(),
                rel_views(self.relationships@) == old_rels,
                rel_views(kept@) == rels_without_element(old_rels.take(k as int), id),
            decreases m - k,
        {
            let r = &self.relationships[k];
            proof {
                assert(old_rels[k as int] == self.relationships@[k as int]@);
                assert(old_rels.take(k as int + 1) =~= old_rels.take(k as int).push(
                    old_rels[k as int],
                ));
                lemma_filter_push(
                    old_rels.take(k as int),
                    old_rels[k as int],
                    |r: RelationshipView| r.source_id != id && r.target_id != id,
                );
            }
            if !(r.source_id == id || r.target_id == id) {
                let dup = r.duplicate();
                kept.push(dup);
                proof {
                    assert(rel_views(kept@) =~= rels_without_element(
                        old_rels.take(k as int),
                        id,
                    ).push(old_rels[k as int]));
                }
            }
            k = k + 1;
        }
        self.relationships = kept;
        proof {
            assert(old_rels.take(old_rels.len() as int) =~= old_rels);
            assert(rel_views(self.relationships@) == rels_without_element(old_rels, id));
            assert(rels_valid(self@.elements, self@.relationships)) by {
                assert forall|j: int| 0 <= j < self@.relationships.len() implies contains_id(
                    self@.elements,
                    (#[trigger] self@.relationships[j]).source_id,
                ) && contains_id(self@.elements, self@.relationships[j].target_id) by {
                    let r = self@.relationships[j];
                    let rp = |r: RelationshipView| r.source_id != id && r.target_id != id;
                    lemma_filter_pred_all(old_rels, rp);
                    let jj = choose|jj: int|
                        0 <= jj < old_rels.len() && old_rels[jj] == r && rp(old_rels[jj]);
                    assert(contains_id(old_elems, r.source_id));
                    lemma_contains_id_filter(old_elems, id, r.source_id);
                    lemma_contains_id_filter(old_elems, id, r.target_id);
                }
            }
        }
    }

    /// Appends the relationship if — and only if — both of its endpoints
    /// are present; otherwise the diagram is unchanged.
    pub fn add_relationship(&mut self, relationship: Relationship)
        requires
            old(self).wf(),
        ensures
            final(self).wf(),
            final(self)@ == (DiagramView {
                relationships: if contains_id(old(self)@.elements, relationship@.source_id)
                    && contains_id(old(self)@.elements, relationship@.target_id) {
                    old(self)@.relationships.push(relationship@)
                } else {
                    old(self)@.relationships
                },
                ..old(self)@
            }),
    {
        let ok = self.has_element(relationship.source_id) && self.has_element(
            relationship.target_id,
        );
        if ok {
            let ghost old_rels: Seq<RelationshipView> = self@.relationships;
            self.relationships.push(relationship);
            proof {
                assert(rel_views(self.relationships@) =~= old_rels.push(relationship@));
                assert(rels_valid(self@.elements, self@.relationships)) by {
                    assert forall|k: int| 0 <= k < self@.relationships.len() implies contains_id(
                        self@.elements,
                        (#[trigger] self@.relationships[k]).source_id,
                    ) && contains_id(self@.elements, self@.relationships[k].target_id) by {
                        if k < old_rels.len() {
                            assert(self@.relationships[k] == old_rels[k]);
                        }
                    }
                }
            }
        }
    }

    /// Removes the relationship with the given identifier; a no-op when
    /// absent.
    pub fn remove_relationship(&mut self, id: ElementId)
        requires
            old(self).wf(),
        ensures
            final(self).wf(),
            final(self)@ == (DiagramView {
                relationships: rels_without(old(self)@.relationships, id),
                ..old(self)@
            }),
    {
        let ghost old_rels: Seq<RelationshipView> = self@.relationships;
        let m = self.relationships.len();
        let mut kept: Vec<Relationship> = Vec::new();
        let mut k: usize = 0;
        while k < m
            invariant
                0 <= k <= m,
                m == self.relationships@.len(),
                rel_views(self.relationships@) == old_rels,
                rel_views(kept@) == rels_without(old_rels.take(k as int), id),
            decreases m - k,
        {
            let r = &self.relationships[k];
            proof {
                assert(old_rels[k as int] == self.relationships@[k as int]@);
                assert(old_rels.take(k as int + 1) =~= old_rels.take(k as int).push(
                    old_rels[k as int],
                ));
                lemma_filter_push(
                    old_rels.take(k as int),
                    old_rels[k as int],
                    |r: RelationshipView| r.id != id,
                );
            }
            if !(r.id == id) {
                let dup = r.duplicate();
                kept.push(dup);
                proof {
                    assert(rel_views(kept@) =~= rels_without(old_rels.take(k as int), id).push(
                        old_rels[k as int],
                    ));
                }
            }
            k = k + 1;
        }
        self.relationships = kept;
        proof {
            assert(old_rels.take(old_rels.len() as int) =~= old_rels);
            assert(rels_valid(self@.elements, self@.relationships)) by {
                assert forall|j: int| 0 <= j < self@.relationships.len() implies contains_id(
                    self@.elements,
                    (#[trigger] self@.relationships[j]).source_id,
                ) && contains_id(self@.elements, self@.relationships[j].target_id) by {
                    let r = self@.relationships[j];
                    let rp = |r: RelationshipView| r.id != id;
                    lemma_filter_pred_all(old_rels, rp);
                    let jj = choose|jj: int|
                        0 <= jj < old_rels.len() && old_rels[jj] == r && rp(old_rels[jj]);
                    assert(contains_id(old(self)@.elements, r.source_id));
                }
            }
        }
    }

    /// The relationships leaving the given element, in insertion order.
    pub fn relationships_from(&self, element_id: ElementId) -> (r: Vec<Relationship>)
        ensures
            rel_views(r@) == rels_from(self@.relationships, element_id),
    {
        let ghost rv: Seq<RelationshipView> = self@.relationships;
        let m = self.relationships.len();
        let mut out: Vec<Relationship> = Vec::new();
        let mut k: usize = 0;
        while k < m
            invariant
                0 <= k <= m,
                m == self.relationships@.len(),
                rv == rel_views(self.relationships@),
                rel_views(out@) == rels_from(rv.take(k as int), element_id),
            decreases m - k,
        {
            let r = &self.relationships[k];
            proof {
                assert(rv[k as int] == self.relationships@[k as int]@);
                assert(rv.take(k as int + 1) =~= rv.take(k as int).push(rv[k as int]));
                lemma_filter_push(
                    rv.take(k as int),
                    rv[k as int],
                    |r: RelationshipView| r.source_id == element_id,
                );
            }
            if r.source_id == element_id {
                let dup = r.duplicate();
                out.push(dup);
                proof {
                    assert(rel_views(out@) =~= rels_from(rv.take(k as int), element_id).push(
                        rv[k as int],
                    ));
                }
            }
            k = k + 1;
        }
        proof {
            assert(rv.take(rv.len() as int) =~= rv);
        }
        out
    }

    /// The relationships arriving at the given element, in insertion order.
    pub fn relationships_to(&self, element_id: ElementId) -> (r: Vec<Relationship>)
        ensures
            rel_views(r@) == rels_to(self@.relationships, element_id),
    {
        let ghost rv: Seq<RelationshipView> = self@.relationships;
        let m = self.relationships.len();
        let mut out: Vec<Relationship> = Vec::new();
        let mut k: usize = 0;
        while k < m
            invariant
                0 <= k <= m,
                m == self.relationships@.len(),
                rv == rel_views(self.relationships@),
                rel_views(out@) == rels_to(rv.take(k as int), element_id),
            decreases m - k,
        {
            let r = &self.relationships[k];
            proof {
                assert(rv[k as int] == self.relationships@[k as int]@);
                assert(rv.take(k as int + 1) =~= rv.take(k as int).push(rv[k as int]));
                lemma_filter_push(
                    rv.take(k as int),
                    rv[k as int],
                    |r: RelationshipView| r.target_id == element_id,
                );
            }
            if r.target_id == element_id {
                let dup = r.duplicate();
                out.push(dup);
                proof {
                    assert(rel_views(out@) =~= rels_to(rv.take(k as int), element_id).push(
                        rv[k as int],
                    ));
                }
            }
            k = k + 1;
        }
        proof {
            assert(rv.take(rv.len() as int) =~= rv);
        }
        out
    }

    /// The relationships touching the given element from either side, in
    /// insertion order.
    pub fn relationships_connected_to(&self, element_id: ElementId) -> (r: Vec<Relationship>)
        ensures
            rel_views(r@) == rels_connected(self@.relationships, element_id),
    {
        let ghost rv: Seq<RelationshipView> = self@.relationships;
        let m = self.relationships.len();
        let mut out: Vec<Relationship> = Vec::new();
        let mut k: usize = 0;
        while k < m
            invariant
                0 <= k <= m,
                m == self.relationships@.len(),
                rv == rel_views(self.relationships@),
                rel_views(out@) == rels_connected(rv.take(k as int), element_id),
            decreases m - k,
        {
            let r = &self.relationships[k];
            proof {
                assert(rv[k as int] == self.relationships@[k as int]@);
                assert(rv.take(k as int + 1) =~= rv.take(k as int).push(rv[k as int]));
                lemma_filter_push(
                    rv.take(k as int),
                    rv[k as int],
                    |r: RelationshipView| r.source_id == element_id || r.target_id == element_id,
                );
            }
            if r.source_id == element_id || r.target_id == element_id {
                let dup = r.duplicate();
                out.push(dup);
                proof {
                    assert(rel_views(out@) =~= rels_connected(rv.take(k as int), element_id).push(
                        rv[k as int],
                    ));
                }
            }
            k = k + 1;
        }
        proof {
            assert(rv.take(rv.len() as int) =~= rv);
        }
        out
    }
}

impl Default for Diagram {
    /// An empty, untitled system context diagram.
    fn default() -> (d: Diagram)
        ensures
            d@.version == "1.0"@,
            d@.name == "Untitled Diagram"@,
            d@.description == ""@,
            d@.diagram_type == DiagramType::SystemContext,
            d@.elements == Seq::<ElementView>::empty(),
            d@.relationships == Seq::<RelationshipView>::empty(),
            d.wf(),
    {
        Diagram::new("Untitled Diagram", "", DiagramType::SystemContext)
    }
}

/// Law: for any element `x`, the relationships leaving `x` and the
/// relationships arriving at `x` from another element partition the
/// relationships connected to `x`: together, and without overlap, they are
/// exactly the connected ones.
pub proof fn lemma_relationship_query_partition(rels: Seq<RelationshipView>, x: ElementId)
    ensures
        rels_connected(rels, x).to_multiset() == rels_from(rels, x).to_multiset().add(
            rels_to_only(rels, x).to_multiset(),
        ),
        rels_connected(rels, x).len() == rels_from(rels, x).len() + rels_to_only(rels, x).len(),
    decreases rels.len(),
{
    broadcast use vstd::seq_lib::group_to_multiset_ensures;

    let cp = |r: RelationshipView| r.source_id == x || r.target_id == x;
    let fp = |r: RelationshipView| r.source_id == x;
    let tp = |r: RelationshipView| r.target_id == x && r.source_id != x;
    if rels.len() == 0 {
        reveal(Seq::filter);
        assert_multisets_equal!(rels_connected(rels, x).to_multiset(),
            rels_from(rels, x).to_multiset().add(rels_to_only(rels, x).to_multiset()));
    } else {
        let s = rels.drop_last();
        let e = rels.last();
        lemma_relationship_query_partition(s, x);
        assert(s.push(e) =~= rels);
        lemma_filter_push(s, e, cp);
        lemma_filter_push(s, e, fp);
        lemma_filter_push(s, e, tp);
        assert_multisets_equal!(rels_connected(rels, x).to_multiset(),
            rels_from(rels, x).to_multiset().add(rels_to_only(rels, x).to_multiset()));
    }
}


/// One editing operation on the diagram's entity graph, at the level of the
/// mathematical model; `apply_op` gives each the meaning the corresponding
/// method's contract states.
pub enum DiagramOp {
    AddElement(ElementView),
    RemoveElement(ElementId),
    AddRelationship(RelationshipView),
    RemoveRelationship(ElementId),
}

/// What one operation does to the model, exactly as the contracts of
/// `add_element`, `remove_element`, `add_relationship` and
/// `remove_relationship` state.
pub open spec fn apply_op(d: DiagramView, op: DiagramOp) -> DiagramView {
    match op {
        DiagramOp::AddElement(e) => DiagramView { elements: upsert(d.elements, e), ..d },
        DiagramOp::RemoveElement(id) => DiagramView {
            elements: elems_without(d.elements, id),
            relationships: rels_without_element(d.relationships, id),
            ..d
        },
        DiagramOp::AddRelationship(r) => DiagramView {
            relationships: if contains_id(d.elements, r.source_id) && contains_id(
                d.elements,
                r.target_id,
            ) {
                d.relationships.push(r)
            } else {
                d.relationships
            },
            ..d
        },
        DiagramOp::RemoveRelationship(id) => DiagramView {
            relationships: rels_without(d.relationships, id),
            ..d
        },
    }
}

/// The model after a whole sequence of operations, in order.
pub open spec fn apply_ops(d: DiagramView, ops: Seq<DiagramOp>) -> DiagramView
    decreases ops.len(),
{
    if ops.len() == 0 {
        d
    } else {
        apply_op(apply_ops(d, ops.drop_last()), ops.last())
    }
}

/// Each single operation preserves well-formedness: unique element keys
/// and referential integrity.
pub proof fn lemma_op_preserves_wf(d: DiagramView, op: DiagramOp)
    requires
        wf_view(d),
    ensures
        wf_view(apply_op(d, op)),
{
    let d2 = apply_op(d, op);
    match op {
        DiagramOp::AddElement(e) => {
            if contains_id(d.elements, e.id) {
                let i = index_of_id(d.elements, e.id);
                assert(0 <= i < d.elements.len() && d.elements[i].id == e.id);
                lemma_distinct_update(d.elements, i, e);
                assert forall|k: int| 0 <= k < d2.relationships.len() implies contains_id(
                    d2.elements,
                    (#[trigger] d2.relationships[k]).source_id,
                ) && contains_id(d2.elements, d2.relationships[k].target_id) by {
                    lemma_contains_id_update_same(d.elements, i, e, d.relationships[k].source_id);
                    lemma_contains_id_update_same(d.elements, i, e, d.relationships[k].target_id);
                }
            } else {
                assert(distinct_ids(d2.elements)) by {
                    assert forall|a: int, b: int|
                        0 <= a < b < d2.elements.len() implies (#[trigger] d2.elements[a]).id != (
                    #[trigger] d2.elements[b]).id by {
                        if b == d2.elements.len() - 1 {
                            if d.elements[a].id == e.id {
                                assert(contains_id(d.elements, e.id));
                            }
                        }
                    }
                }
                assert forall|k: int| 0 <= k < d2.relationships.len() implies contains_id(
                    d2.elements,
                    (#[trigger] d2.relationships[k]).source_id,
                ) && contains_id(d2.elements, d2.relationships[k].target_id) by {
                    lemma_contains_id_push(d.elements, e, d.relationships[k].source_id);
                    lemma_contains_id_push(d.elements, e, d.relationships[k].target_id);
                }
            }
        },
        DiagramOp::RemoveElement(id) => {
            lemma_filter_sub_distinct(d.elements, |ev: ElementView| ev.id != id);
            let rp = |r: RelationshipView| r.source_id != id && r.target_id != id;
            assert forall|k: int| 0 <= k < d2.relationships.len() implies contains_id(
                d2.elements,
                (#[trigger] d2.relationships[k]).source_id,
            ) && contains_id(d2.elements, d2.relationships[k].target_id) by {
                lemma_filter_pred_all(d.relationships, rp);
                let r = d2.relationships[k];
                let j = choose|j: int|
                    0 <= j < d.relationships.len() && d.relationships[j] == r && rp(
                        d.relationships[j],
                    );
                assert(contains_id(d.elements, r.source_id));
                lemma_contains_id_filter(d.elements, id, r.source_id);
                lemma_contains_id_filter(d.elements, id, r.target_id);
            }
        },
        DiagramOp::AddRelationship(r) => {
            if contains_id(d.elements, r.source_id) && contains_id(d.elements, r.target_id) {
                assert forall|k: int| 0 <= k < d2.relationships.len() implies contains_id(
                    d2.elements,
                    (#[trigger] d2.relationships[k]).source_id,
                ) && contains_id(d2.elements, d2.relationships[k].target_id) by {
                    if k < d.relationships.len() {
                        assert(d2.relationships[k] == d.relationships[k]);
                    }
                }
            }
        },
        DiagramOp::RemoveRelationship(id) => {
            let rp = |r: RelationshipView| r.id != id;
            assert forall|k: int| 0 <= k < d2.relationships.len() implies contains_id(
                d2.elements,
                (#[trigger] d2.relationships[k]).source_id,
            ) && contains_id(d2.elements, d2.relationships[k].target_id) by {
                lemma_filter_pred_all(d.relationships, rp);
                let r = d2.relationships[k];
                let j = choose|j: int|
                    0 <= j < d.relationships.len() && d.relationships[j] == r && rp(
                        d.relationships[j],
                    );
                assert(contains_id(d.elements, r.source_id));
            }
        },
    }
}

/// Law: referential integrity is an invariant of the whole editing
/// vocabulary. Whatever sequence of insertions and removals of elements
/// and relationships runs against a well-formed diagram, every remaining
/// relationship still has both of its endpoints present.
pub proof fn lemma_referential_integrity(d: DiagramView, ops: Seq<DiagramOp>)
    requires
        wf_view(d),
    ensures
        wf_view(apply_ops(d, ops)),
    decreases ops.len(),
{
    if ops.len() > 0 {
        lemma_referential_integrity(d, ops.drop_last());
        lemma_op_preserves_wf(apply_ops(d, ops.drop_last()), ops.last());
    }
}

} // verus!
