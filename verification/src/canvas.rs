//! The canvas interaction engine: the pointer-driven state machine for
//! selection, dragging and relationship creation, and the connector
//! geometry.
//!
//! The engine owns only transient interaction state. The drawing surface,
//! the view offset and zoom scale, and the painting itself belong to the
//! rendering shell, which feeds pointer gestures in as plain events and
//! receives the chosen relationship target back.

use vstd::prelude::*;
use crate::diagram::{
    contains_id, distinct_ids, elem_views, find_index, index_of_id, lemma_distinct_update,
    lemma_unique_index,
};
use crate::elements::{Element, ElementView};
use crate::geometry::{Position, Size, Vector};
use crate::ids::ElementId;

verus! {

/// Addition on coordinates that stops at the numeric range instead of
/// wrapping: dragging never fails, whatever the pointer reports.
pub open spec fn sat_add(a: i64, b: i64) -> i64 {
    if a + b > i64::MAX {
        i64::MAX
    } else if a + b < i64::MIN {
        i64::MIN
    } else {
        (a + b) as i64
    }
}

fn sat_add_exec(a: i64, b: i64) -> (r: i64)
    ensures
        r == sat_add(a, b),
{
    if b >= 0 && a > i64::MAX - b {
        i64::MAX
    } else if b < 0 && a < i64::MIN - b {
        i64::MIN
    } else {
        a + b
    }
}

/// One pointer gesture delivered to an element during a frame.
#[derive(Clone, Copy, Debug)]
pub enum PointerEvent {
    /// A drag began on the element.
    DragStarted,
    /// The drag moved by the given delta.
    Dragged(Vector),
    /// The drag ended.
    DragStopped,
    /// A press and release with no drag.
    Clicked,
}

/// The elements with the one carrying `id` moved by `delta`; absent
/// elements are simply skipped.
pub open spec fn translated(elems: Seq<ElementView>, id: ElementId, delta: Vector) -> Seq<
    ElementView,
> {
    if contains_id(elems, id) {
        let i = index_of_id(elems, id);
        elems.update(
            i,
            ElementView {
                position: Position {
                    x: sat_add(elems[i].position.x, delta.x),
                    y: sat_add(elems[i].position.y, delta.y),
                },
                ..elems[i]
            },
        )
    } else {
        elems
    }
}

/// Moves the element carrying `id` by `delta`; a no-op when absent.
fn translate_element(elements: &mut Vec<Element>, id: ElementId, delta: Vector)
    requires
        distinct_ids(elem_views(old(elements)@)),
    ensures
        distinct_ids(elem_views(final(elements)@)),
        elem_views(final(elements)@) == translated(elem_views(old(elements)@), id, delta),
{
    let ghost old_elems: Seq<ElementView> = elem_views(elements@);
    match find_index(elements, id) {
        Some(i) => {
            proof {
                lemma_unique_index(old_elems, i as int, id);
            }
            let x = elements[i].position.x;
            let y = elements[i].position.y;
            let e = &mut elements[i];
            e.position = Position { x: sat_add_exec(x, delta.x), y: sat_add_exec(y, delta.y) };
            proof {
                assert(elem_views(elements@) =~= translated(old_elems, id, delta));
                lemma_distinct_update(
                    old_elems,
                    i as int,
                    translated(old_elems, id, delta)[i as int],
                );
            }
        },
        None => {},
    }
}

/// Canvas for editing diagrams: the pointer-interaction state that persists
/// between frames.
#[derive(Clone, Copy, Debug)]
pub struct Canvas {
    /// The element currently being moved by the pointer, if any.
    pub dragging: Option<ElementId>,
    /// When set, the canvas is in relationship-creation mode and the value
    /// is the pending relationship's source.
    pub relationship_source: Option<ElementId>,
}

/// What one event does to the interaction state: the canvas state, the
/// element list, the selection, and the chosen relationship target so far.
pub open spec fn step(
    c: Canvas,
    elems: Seq<ElementView>,
    sel: Option<ElementId>,
    tgt: Option<ElementId>,
    id: ElementId,
    ev: PointerEvent,
) -> (Canvas, Seq<ElementView>, Option<ElementId>, Option<ElementId>) {
    match ev {
        PointerEvent::DragStarted => (
            Canvas { dragging: Some(id), relationship_source: c.relationship_source },
            elems,
            if c.relationship_source is Some {
                sel
            } else {
                Some(id)
            },
            tgt,
        ),
        PointerEvent::Dragged(delta) => (c, translated(elems, id, delta), sel, tgt),
        PointerEvent::DragStopped => (
            Canvas { dragging: None, relationship_source: c.relationship_source },
            elems,
            sel,
            tgt,
        ),
        PointerEvent::Clicked => match c.relationship_source {
            Some(src) => (
                c,
                elems,
                sel,
                if src == id {
                    tgt
                } else {
                    Some(id)
                },
            ),
            None => (c, elems, Some(id), tgt),
        },
    }
}

/// The interaction state after a whole frame's events, in order.
pub open spec fn run_events(
    c: Canvas,
    elems: Seq<ElementView>,
    sel: Option<ElementId>,
    tgt: Option<ElementId>,
    events: Seq<(ElementId, PointerEvent)>,
) -> (Canvas, Seq<ElementView>, Option<ElementId>, Option<ElementId>)
    decreases events.len(),
{
    if events.len() == 0 {
        (c, elems, sel, tgt)
    } else {
        let prev = run_events(c, elems, sel, tgt, events.drop_last());
        step(prev.0, prev.1, prev.2, prev.3, events.last().0, events.last().1)
    }
}

impl Canvas {
    /// A canvas with no drag in progress and no pending relationship.
    pub fn new() -> (c: Canvas)
        ensures
            c.dragging is None,
            c.relationship_source is None,
    {
        Canvas { dragging: None, relationship_source: None }
    }

    /// Whether the canvas is waiting for a relationship target.
    pub fn is_in_relationship_mode(&self) -> (r: bool)
        ensures
            r == (self.relationship_source is Some),
    {
        self.relationship_source.is_some()
    }

    /// Enters relationship-creation mode with the given source element.
    pub fn start_relationship(&mut self, source_id: ElementId)
        ensures
            final(self).relationship_source == Some(source_id),
            final(self).dragging == old(self).dragging,
    {
        self.relationship_source = Some(source_id);
    }

    /// Leaves relationship-creation mode unconditionally.
    pub fn cancel_relationship(&mut self)
        ensures
            final(self).relationship_source is None,
            final(self).dragging == old(self).dragging,
    {
        self.relationship_source = None;
    }

    /// Runs one frame's pointer gestures through the interaction state
    /// machine, in order, then applies the background click: selection is
    /// cleared by a click on empty canvas only outside relationship mode.
    /// Returns the element chosen as relationship target, if the frame
    /// picked one.
    pub fn process_events(
        &mut self,
        elements: &mut Vec<Element>,
        events: &Vec<(ElementId, PointerEvent)>,
        background_clicked: bool,
        selected: &mut Option<ElementId>,
    ) -> (target: Option<ElementId>)
        requires
            distinct_ids(elem_views(old(elements)@)),
        ensures
            distinct_ids(elem_views(final(elements)@)),
            ({
                let outcome = run_events(
                    *old(self),
                    elem_views(old(elements)@),
                    *old(selected),
                    None,
                    events@,
                );
                &&& *final(self) == outcome.0
                &&& elem_views(final(elements)@) == outcome.1
                &&& *final(selected) == (if background_clicked && old(
                    self,
                ).relationship_source is None {
                    None::<ElementId>
                } else {
                    outcome.2
                })
                &&& target == outcome.3
            }),
    {
        let ghost c0: Canvas = *self;
        let ghost e0: Seq<ElementView> = elem_views(elements@);
        let ghost s0: Option<ElementId> = *selected;
        let relationship_mode = self.relationship_source.is_some();
        let mut target: Option<ElementId> = None;
        let n = events.len();
        let mut i: usize = 0;
        while i < n
            invariant
                0 <= i <= n,
                n == events@.len(),
                distinct_ids(elem_views(elements@)),
                relationship_mode == (c0.relationship_source is Some),
                self.relationship_source == c0.relationship_source,
                (*self, elem_views(elements@), *selected, target) == run_events(
                    c0,
                    e0,
                    s0,
                    None,
                    events@.take(i as int),
                ),
            decreases n - i,
        {
            proof {
                assert(events@.take(i as int + 1).drop_last() =~= events@.take(i as int));
                assert(events@.take(i as int + 1).last() == events@[i as int]);
            }
            let (id, ev) = events[i];
            match ev {
                PointerEvent::DragStarted => {
                    self.dragging = Some(id);
                    if !relationship_mode {
                        *selected = Some(id);
                    }
                },
                PointerEvent::Dragged(delta) => {
                    translate_element(elements, id, delta);
                },
                PointerEvent::DragStopped => {
                    self.dragging = None;
                },
                PointerEvent::Clicked => {
                    if relationship_mode {
                        match self.relationship_source {
                            Some(src) => {
                                if !(src == id) {
                                    target = Some(id);
                                }
                            },
                            None => {},
                        }
                    } else {
                        *selected = Some(id);
                    }
                },
            }
            i = i + 1;
        }
        proof {
            assert(events@.take(n as int) =~= events@);
        }
        if background_clicked && !relationship_mode {
            *selected = None;
        }
        target
    }

    /// The point where the ray from the rectangle's center toward `target`
    /// exits the rectangle, or nothing when `target` coincides with the
    /// center (the one direction the ray does not determine). Computed in
    /// doubled coordinates so that half-extents stay exact, with the final
    /// halving and the off-axis coordinate rounded toward zero.
    pub fn calculate_edge_point(
        &self,
        position: Position,
        size: Size,
        target: Position,
    ) -> (r: Option<Position>)
        requires
            -0x1000_0000 <= position.x <= 0x1000_0000,
            -0x1000_0000 <= position.y <= 0x1000_0000,
            0 <= size.width <= 0x1000_0000,
            0 <= size.height <= 0x1000_0000,
            -0x1000_0000 <= target.x <= 0x1000_0000,
            -0x1000_0000 <= target.y <= 0x1000_0000,
        ensures
            r == edge_point(position, size, target),
    {
        let cx2: i64 = 2 * position.x + size.width;
        let cy2: i64 = 2 * position.y + size.height;
        let dx2: i64 = 2 * target.x - cx2;
        let dy2: i64 = 2 * target.y - cy2;
        if dx2 == 0 && dy2 == 0 {
            return None;
        }
        let adx: i64 = if dx2 < 0 {
            -dx2
        } else {
            dx2
        };
        let ady: i64 = if dy2 < 0 {
            -dy2
        } else {
            dy2
        };
        let hw2: i64 = size.width;
        let hh2: i64 = size.height;
        proof {
            assert(hw2 as int * ady as int <= 0x1000_0000 * 0x5000_0000) by (nonlinear_arith)
                requires
                    0 <= hw2 as int <= 0x1000_0000,
                    0 <= ady as int <= 0x5000_0000,
            ;
            assert(hh2 as int * adx as int <= 0x1000_0000 * 0x5000_0000) by (nonlinear_arith)
                requires
                    0 <= hh2 as int <= 0x1000_0000,
                    0 <= adx as int <= 0x5000_0000,
            ;
        }
        let hit_vertical = dx2 != 0 && (dy2 == 0 || hw2 * ady <= hh2 * adx);
        let (x2, y2): (i64, i64) = if hit_vertical {
            let off: i64 = ady * hw2 / adx;
            proof {
                lemma_div_shrinks(ady as int * hw2 as int, adx as int);
            }
            let x2 = if dx2 > 0 {
                cx2 + hw2
            } else {
                cx2 - hw2
            };
            let y2 = if dy2 >= 0 {
                cy2 + off
            } else {
                cy2 - off
            };
            (x2, y2)
        } else {
            let off: i64 = adx * hh2 / ady;
            proof {
                lemma_div_shrinks(adx as int * hh2 as int, ady as int);
            }
            let y2 = if dy2 > 0 {
                cy2 + hh2
            } else {
                cy2 - hh2
            };
            let x2 = if dx2 >= 0 {
                cx2 + off
            } else {
                cx2 - off
            };
            (x2, y2)
        };
        Some(Position { x: half_toward_zero(x2), y: half_toward_zero(y2) })
    }
}

/// Half of a doubled coordinate, rounded toward zero.
pub open spec fn spec_half_toward_zero(a: int) -> int {
    if a >= 0 {
        a / 2
    } else {
        -((-a) / 2)
    }
}

fn half_toward_zero(a: i64) -> (r: i64)
    requires
        i64::MIN < a,
    ensures
        r == spec_half_toward_zero(a as int),
{
    if a >= 0 {
        a / 2
    } else {
        -((-a) / 2)
    }
}

/// Division of a non-negative number by a positive one cannot grow it.
proof fn lemma_div_shrinks(a: int, b: int)
    requires
        a >= 0,
        b >= 1,
    ensures
        0 <= a / b <= a,
{
    assert(0 <= a / b <= a) by (nonlinear_arith)
        requires
            a >= 0,
            b >= 1,
    ;
}

/// The rectangle-exit point of the ray from the rectangle's center toward
/// `target`, in the same doubled-coordinate computation the engine uses:
/// the parametric distances to the vertical and horizontal sides are
/// compared exactly by cross-multiplication, and the nearer pair of sides
/// is hit.
pub open spec fn edge_point(position: Position, size: Size, target: Position) -> Option<Position> {
    let cx2 = 2 * position.x + size.width;
    let cy2 = 2 * position.y + size.height;
    let dx2 = 2 * target.x - cx2;
    let dy2 = 2 * target.y - cy2;
    if dx2 == 0 && dy2 == 0 {
        None
    } else {
        let adx = if dx2 < 0 {
            -dx2
        } else {
            dx2 as int
        };
        let ady = if dy2 < 0 {
            -dy2
        } else {
            dy2 as int
        };
        let hw2 = size.width as int;
        let hh2 = size.height as int;
        if dx2 != 0 && (dy2 == 0 || hw2 * ady <= hh2 * adx) {
            let off = ady * hw2 / adx;
            let x2 = if dx2 > 0 {
                cx2 + hw2
            } else {
                cx2 - hw2
            };
            let y2 = if dy2 >= 0 {
                cy2 + off
            } else {
                cy2 - off
            };
            Some(
                Position {
                    x: spec_half_toward_zero(x2) as i64,
                    y: spec_half_toward_zero(y2) as i64,
                },
            )
        } else {
            let off = adx * hh2 / ady;
            let y2 = if dy2 > 0 {
                cy2 + hh2
            } else {
                cy2 - hh2
            };
            let x2 = if dx2 >= 0 {
                cx2 + off
            } else {
                cx2 - off
            };
            Some(
                Position {
                    x: spec_half_toward_zero(x2) as i64,
                    y: spec_half_toward_zero(y2) as i64,
                },
            )
        }
    }
}

/// Whether two axis-aligned rectangles touch or overlap; used by the
/// rendering shell for visibility culling.
pub fn rects_intersect(a_pos: Position, a_size: Size, b_pos: Position, b_size: Size) -> (r: bool)
    requires
        0 <= a_size.width && 0 <= a_size.height,
        0 <= b_size.width && 0 <= b_size.height,
        -0x4000_0000 <= a_pos.x <= 0x4000_0000,
        -0x4000_0000 <= a_pos.y <= 0x4000_0000,
        -0x4000_0000 <= b_pos.x <= 0x4000_0000,
        -0x4000_0000 <= b_pos.y <= 0x4000_0000,
        a_size.width <= 0x4000_0000 && a_size.height <= 0x4000_0000,
        b_size.width <= 0x4000_0000 && b_size.height <= 0x4000_0000,
    ensures
        r == (a_pos.x <= b_pos.x + b_size.width && b_pos.x <= a_pos.x + a_size.width && a_pos.y
            <= b_pos.y + b_size.height && b_pos.y <= a_pos.y + a_size.height),
{
    a_pos.x <= b_pos.x + b_size.width && b_pos.x <= a_pos.x + a_size.width && a_pos.y <= b_pos.y
        + b_size.height && b_pos.y <= a_pos.y + a_size.height
}

impl Default for Canvas {
    /// Same as `Canvas::new`.
    fn default() -> (c: Canvas)
        ensures
            c.dragging is None,
            c.relationship_source is None,
    {
        Canvas::new()
    }
}


/// Law: a target level with the rectangle's center exits through the
/// vertical side it lies beyond, at the target's own height — the
/// right-middle or left-middle point of the rectangle.
pub proof fn lemma_edge_point_level(position: Position, size: Size, target: Position)
    requires
        -0x1000_0000 <= position.x <= 0x1000_0000,
        -0x1000_0000 <= position.y <= 0x1000_0000,
        0 <= size.width <= 0x1000_0000,
        0 <= size.height <= 0x1000_0000,
        -0x1000_0000 <= target.x <= 0x1000_0000,
        -0x1000_0000 <= target.y <= 0x1000_0000,
        2 * target.y == 2 * position.y + size.height,
        2 * target.x != 2 * position.x + size.width,
    ensures
        edge_point(position, size, target) == Some(
            Position {
                x: if 2 * target.x > 2 * position.x + size.width {
                    (position.x + size.width) as i64
                } else {
                    position.x
                },
                y: target.y,
            },
        ),
{
    let cx2 = 2 * position.x + size.width;
    let dx2 = 2 * target.x - cx2;
    let adx = if dx2 < 0 {
        -dx2
    } else {
        dx2 as int
    };
    assert(0int * (size.width as int) == 0);
    assert((0int * (size.width as int)) / adx == 0);
}

/// Law: a target plumb with the rectangle's center exits through the
/// horizontal side it lies beyond, at the target's own abscissa — the
/// bottom-middle or top-middle point of the rectangle.
pub proof fn lemma_edge_point_plumb(position: Position, size: Size, target: Position)
    requires
        -0x1000_0000 <= position.x <= 0x1000_0000,
        -0x1000_0000 <= position.y <= 0x1000_0000,
        0 <= size.width <= 0x1000_0000,
        0 <= size.height <= 0x1000_0000,
        -0x1000_0000 <= target.x <= 0x1000_0000,
        -0x1000_0000 <= target.y <= 0x1000_0000,
        2 * target.x == 2 * position.x + size.width,
        2 * target.y != 2 * position.y + size.height,
    ensures
        edge_point(position, size, target) == Some(
            Position {
                x: target.x,
                y: if 2 * target.y > 2 * position.y + size.height {
                    (position.y + size.height) as i64
                } else {
                    position.y
                },
            },
        ),
{
    let cy2 = 2 * position.y + size.height;
    let dy2 = 2 * target.y - cy2;
    let ady = if dy2 < 0 {
        -dy2
    } else {
        dy2 as int
    };
    assert(0int * (size.height as int) == 0);
    assert((0int * (size.height as int)) / ady == 0);
}

} // verus!
