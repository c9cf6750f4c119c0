//! Visual styling of elements: fill and border colors, icons, and the
//! default placement grid for newly added elements.

use vstd::prelude::*;
use crate::elements::{ContainerTypeView, Element, ElementType, ElementTypeView};
use crate::geometry::Position;

verus! {

/// An sRGB color.
#[derive(Clone, Copy, PartialEq, Eq, Structural, Debug)]
pub struct Rgb {
    pub r: u8,
    pub g: u8,
    pub b: u8,
}

impl Rgb {
    pub fn new(r: u8, g: u8, b: u8) -> (c: Rgb)
        ensures
            c == (Rgb { r, g, b }),
    {
        Rgb { r, g, b }
    }
}

/// The fill color of each element variant.
pub open spec fn background_color_of(v: ElementTypeView) -> Rgb {
    match v {
        ElementTypeView::Person { is_external, .. } => if is_external {
            Rgb { r: 255, g: 240, b: 220 }
        } else {
            Rgb { r: 255, g: 220, b: 180 }
        },
        ElementTypeView::SoftwareSystem { is_external, .. } => if is_external {
            Rgb { r: 230, g: 230, b: 230 }
        } else {
            Rgb { r: 200, g: 220, b: 255 }
        },
        ElementTypeView::Container { container_type, .. } => match container_type {
            ContainerTypeView::Database => Rgb { r: 200, g: 255, b: 200 },
            ContainerTypeView::Queue => Rgb { r: 255, g: 255, b: 200 },
            _ => Rgb { r: 220, g: 240, b: 255 },
        },
    }
}

/// The border color: highlighted when selected, neutral gray otherwise.
pub open spec fn border_color_of(is_selected: bool) -> Rgb {
    if is_selected {
        Rgb { r: 0, g: 120, b: 215 }
    } else {
        Rgb { r: 150, g: 150, b: 150 }
    }
}

/// The fill and border colors for an element in its current selection
/// state.
pub fn element_colors(element: &Element, is_selected: bool) -> (r: (Rgb, Rgb))
    ensures
        r.0 == background_color_of(element@.element_type),
        r.1 == border_color_of(is_selected),
{
    let border = if is_selected {
        Rgb::new(0, 120, 215)
    } else {
        Rgb::new(150, 150, 150)
    };
    let bg = match &element.element_type {
        ElementType::Person(d) => {
            if d.is_external {
                Rgb::new(255, 240, 220)
            } else {
                Rgb::new(255, 220, 180)
            }
        },
        ElementType::SoftwareSystem(d) => {
            if d.is_external {
                Rgb::new(230, 230, 230)
            } else {
                Rgb::new(200, 220, 255)
            }
        },
        ElementType::Container(d) => match &d.container_type {
            crate::elements::ContainerType::Database => Rgb::new(200, 255, 200),
            crate::elements::ContainerType::Queue => Rgb::new(255, 255, 200),
            _ => Rgb::new(220, 240, 255),
        },
    };
    (bg, border)
}

/// The icon shown in each element's top-left corner.
pub open spec fn icon_of(v: ElementTypeView) -> Seq<char> {
    match v {
        ElementTypeView::Person { .. } => "👤"@,
        ElementTypeView::SoftwareSystem { .. } => "🖥️"@,
        ElementTypeView::Container { container_type, .. } => match container_type {
            ContainerTypeView::Database => "🗄️"@,
            ContainerTypeView::MobileApp => "📱"@,
            ContainerTypeView::Queue => "📨"@,
            _ => "📦"@,
        },
    }
}

/// The icon for an element's variant.
pub fn get_element_icon(element: &Element) -> (r: &'static str)
    ensures
        r@ == icon_of(element@.element_type),
{
    match &element.element_type {
        ElementType::Person(_) => "👤",
        ElementType::SoftwareSystem(_) => "🖥️",
        ElementType::Container(d) => match &d.container_type {
            crate::elements::ContainerType::Database => "🗄️",
            crate::elements::ContainerType::MobileApp => "📱",
            crate::elements::ContainerType::Queue => "📨",
            _ => "📦",
        },
    }
}

/// Where the `index`-th added element is placed: a three-column grid
/// starting at (50, 50) with 200-unit columns and 150-unit rows.
pub fn default_element_position(index: usize) -> (p: Position)
    requires
        index <= 0x1000_0000,
    ensures
        p.x == 50 + (index as int % 3) * 200,
        p.y == 50 + (index as int / 3) * 150,
{
    let col = index % 3;
    let row = index / 3;
    Position { x: 50 + col as i64 * 200, y: 50 + row as i64 * 150 }
}

} // verus!
