//! Tests for the canvas interaction engine, connector geometry, label
//! truncation, and styling.

use c2draw::canvas::{rects_intersect, Canvas, PointerEvent};
use c2draw::elements::{ContainerType, Element, ElementType};
use c2draw::geometry::{Position, Size, Vector};
use c2draw::ids::ElementId;
use c2draw::style::{default_element_position, element_colors, get_element_icon, Rgb};
use c2draw::text::truncate_text;

/// Verifies Canvas::new creates canvas with default values
#[test]
fn canvas_new_creates_default_canvas() {
    let canvas = Canvas::new();
    assert!(canvas.dragging.is_none());
    assert!(canvas.relationship_source.is_none());
}

/// Verifies Canvas implements Default
#[test]
fn canvas_default() {
    let canvas = Canvas::default();
    assert!(canvas.dragging.is_none());
    assert!(canvas.relationship_source.is_none());
}

/// Verifies is_in_relationship_mode returns false when not in relationship mode
#[test]
fn is_in_relationship_mode_returns_false_when_not_active() {
    let canvas = Canvas::new();
    assert!(!canvas.is_in_relationship_mode());
}

/// Verifies is_in_relationship_mode returns true when in relationship mode
#[test]
fn is_in_relationship_mode_returns_true_when_active() {
    let mut canvas = Canvas::new();
    let element_id = ElementId::new_v4();
    canvas.start_relationship(element_id);
    assert!(canvas.is_in_relationship_mode());
}

/// Verifies start_relationship sets the relationship source
#[test]
fn start_relationship_sets_source() {
    let mut canvas = Canvas::new();
    let element_id = ElementId::new_v4();
    canvas.start_relationship(element_id);
    assert_eq!(canvas.relationship_source, Some(element_id));
}

/// Verifies cancel_relationship clears the relationship source
#[test]
fn cancel_relationship_clears_source() {
    let mut canvas = Canvas::new();
    let element_id = ElementId::new_v4();
    canvas.start_relationship(element_id);
    canvas.cancel_relationship();
    assert!(canvas.relationship_source.is_none());
}

fn two_elements() -> (Vec<Element>, ElementId, ElementId) {
    let a = Element::new(ElementType::person("A", ""), Position::new(0, 0));
    let b = Element::new(ElementType::system("B", ""), Position::new(300, 0));
    let a_id = a.id;
    let b_id = b.id;
    (vec![a, b], a_id, b_id)
}

/// A click in normal mode selects the element
#[test]
fn click_selects_element() {
    let (mut elements, a_id, _) = two_elements();
    let mut canvas = Canvas::new();
    let mut selected: Option<ElementId> = None;

    let target = canvas.process_events(
        &mut elements,
        &vec![(a_id, PointerEvent::Clicked)],
        false,
        &mut selected,
    );

    assert_eq!(selected, Some(a_id));
    assert!(target.is_none());
}

/// A click on empty canvas in normal mode clears the selection
#[test]
fn background_click_clears_selection() {
    let (mut elements, a_id, _) = two_elements();
    let mut canvas = Canvas::new();
    let mut selected: Option<ElementId> = Some(a_id);

    canvas.process_events(&mut elements, &vec![], true, &mut selected);

    assert!(selected.is_none());
}

/// Dragging moves the element by the pointer delta and tracks drag state
#[test]
fn drag_moves_element() {
    let (mut elements, a_id, _) = two_elements();
    let mut canvas = Canvas::new();
    let mut selected: Option<ElementId> = None;

    canvas.process_events(
        &mut elements,
        &vec![
            (a_id, PointerEvent::DragStarted),
            (a_id, PointerEvent::Dragged(Vector::new(7, -3))),
        ],
        false,
        &mut selected,
    );
    assert_eq!(canvas.dragging, Some(a_id));
    assert_eq!(selected, Some(a_id));
    let moved = elements.iter().find(|e| e.id == a_id).unwrap();
    assert_eq!(moved.position, Position::new(7, -3));

    canvas.process_events(
        &mut elements,
        &vec![(a_id, PointerEvent::DragStopped)],
        false,
        &mut selected,
    );
    assert!(canvas.dragging.is_none());
}

/// In relationship mode a click on another element reports it as target,
/// a click on the source itself does not, and selection is untouched
#[test]
fn relationship_mode_picks_target() {
    let (mut elements, a_id, b_id) = two_elements();
    let mut canvas = Canvas::new();
    canvas.start_relationship(a_id);
    let mut selected: Option<ElementId> = None;

    let self_click = canvas.process_events(
        &mut elements,
        &vec![(a_id, PointerEvent::Clicked)],
        false,
        &mut selected,
    );
    assert!(self_click.is_none());
    assert!(selected.is_none());

    let target = canvas.process_events(
        &mut elements,
        &vec![(b_id, PointerEvent::Clicked)],
        true,
        &mut selected,
    );
    assert_eq!(target, Some(b_id));
    assert!(selected.is_none());
    assert!(canvas.is_in_relationship_mode());
}

/// Verifies calculate_edge_point has no defined value when target is at center
#[test]
fn calculate_edge_point_target_at_center() {
    let canvas = Canvas::new();
    let position = Position::new(0, 0);
    let size = Size::new(100, 100);
    let target = Position::new(50, 50);

    let edge = canvas.calculate_edge_point(position, size, target);
    assert!(edge.is_none());
}

/// Verifies calculate_edge_point returns correct point when target is to the right
#[test]
fn calculate_edge_point_target_to_right() {
    let canvas = Canvas::new();
    let position = Position::new(0, 0);
    let size = Size::new(100, 100);
    let target = Position::new(200, 50);

    let edge = canvas.calculate_edge_point(position, size, target).unwrap();
    assert_eq!(edge.x, 100);
    assert_eq!(edge.y, 50);
}

/// Verifies calculate_edge_point returns correct point when target is to the left
#[test]
fn calculate_edge_point_target_to_left() {
    let canvas = Canvas::new();
    let position = Position::new(100, 0);
    let size = Size::new(100, 100);
    let target = Position::new(-50, 50);

    let edge = canvas.calculate_edge_point(position, size, target).unwrap();
    assert_eq!(edge.x, 100);
    assert_eq!(edge.y, 50);
}

/// Verifies calculate_edge_point returns correct point when target is above
#[test]
fn calculate_edge_point_target_above() {
    let canvas = Canvas::new();
    let position = Position::new(0, 100);
    let size = Size::new(100, 100);
    let target = Position::new(50, -50);

    let edge = canvas.calculate_edge_point(position, size, target).unwrap();
    assert_eq!(edge.x, 50);
    assert_eq!(edge.y, 100);
}

/// Verifies calculate_edge_point returns correct point when target is below
#[test]
fn calculate_edge_point_target_below() {
    let canvas = Canvas::new();
    let position = Position::new(0, 0);
    let size = Size::new(100, 100);
    let target = Position::new(50, 200);

    let edge = canvas.calculate_edge_point(position, size, target).unwrap();
    assert_eq!(edge.x, 50);
    assert_eq!(edge.y, 100);
}

/// Verifies calculate_edge_point handles different sized rectangles
#[test]
fn calculate_edge_point_different_sizes() {
    let canvas = Canvas::new();
    let position = Position::new(0, 0);
    let size = Size::new(200, 50);
    let target = Position::new(300, 25);

    let edge = canvas.calculate_edge_point(position, size, target).unwrap();
    assert_eq!(edge.x, 200);
    assert_eq!(edge.y, 25);
}

/// Verifies calculate_edge_point handles diagonal targets
#[test]
fn calculate_edge_point_diagonal_target() {
    let canvas = Canvas::new();
    let position = Position::new(0, 0);
    let size = Size::new(100, 100);
    let target = Position::new(200, -100);

    let edge = canvas.calculate_edge_point(position, size, target).unwrap();
    assert!(edge.x >= 0 && edge.x <= 100);
    assert!(edge.y >= 0 && edge.y <= 100);
}

/// Verifies truncate_text returns original text when within limit
#[test]
fn truncate_text_short_text_unchanged() {
    let text = "Short text";
    let result = truncate_text(text, 25);
    assert_eq!(result, "Short text");
}

/// Verifies truncate_text returns original text when exactly at limit
#[test]
fn truncate_text_exact_limit_unchanged() {
    let text = "1234567890123456789012345"; // 25 chars
    let result = truncate_text(text, 25);
    assert_eq!(result, "1234567890123456789012345");
}

/// Verifies truncate_text truncates long text with ellipsis
#[test]
fn truncate_text_long_text_truncated() {
    let text = "This is a very long text that should be truncated";
    let result = truncate_text(text, 10);
    assert_eq!(result, "This is a ...");
}

/// Verifies truncate_text handles empty string
#[test]
fn truncate_text_empty_string() {
    let text = "";
    let result = truncate_text(text, 25);
    assert_eq!(result, "");
}

/// Verifies truncate_text handles unicode characters correctly
#[test]
fn truncate_text_unicode_characters() {
    let text = "日本語のテキストを切り詰めるテスト";
    let result = truncate_text(text, 5);
    assert!(result.ends_with("..."));
    assert_eq!(result.chars().count(), 8);
}

/// Verifies truncate_text handles emoji correctly
#[test]
fn truncate_text_emoji() {
    let text = "👨‍👩‍👧‍👦👨‍👩‍👧‍👦👨‍👩‍👧‍👦👨‍👩‍👧‍👦👨‍👩‍👧‍👦"; // 5 family emojis
    let result = truncate_text(text, 3);
    assert!(result.ends_with("..."));
}

/// Verifies truncate_text with zero max_len returns just ellipsis
#[test]
fn truncate_text_zero_limit() {
    let text = "Any text";
    let result = truncate_text(text, 0);
    assert_eq!(result, "...");
}

/// Verifies default_element_position places first element at correct position
#[test]
fn default_element_position_first_element() {
    let pos = default_element_position(0);
    assert_eq!(pos.x, 50);
    assert_eq!(pos.y, 50);
}

/// Verifies default_element_position places second element in same row
#[test]
fn default_element_position_second_element() {
    let pos = default_element_position(1);
    assert_eq!(pos.x, 250);
    assert_eq!(pos.y, 50);
}

/// Verifies default_element_position places fourth element (index 3) in second row
#[test]
fn default_element_position_fourth_element() {
    let pos = default_element_position(3);
    assert_eq!(pos.x, 50);
    assert_eq!(pos.y, 200);
}

/// Verifies correct grid layout calculation
#[test]
fn default_element_position_grid_layout() {
    let pos_0 = default_element_position(0);
    assert_eq!(pos_0.x, 50);
    assert_eq!(pos_0.y, 50);

    let pos_1 = default_element_position(1);
    assert_eq!(pos_1.x, 250);
    assert_eq!(pos_1.y, 50);

    let pos_2 = default_element_position(2);
    assert_eq!(pos_2.x, 450);
    assert_eq!(pos_2.y, 50);

    let pos_3 = default_element_position(3);
    assert_eq!(pos_3.x, 50);
    assert_eq!(pos_3.y, 200);

    let pos_4 = default_element_position(4);
    assert_eq!(pos_4.x, 250);
    assert_eq!(pos_4.y, 200);
}

/// Verifies element_colors returns correct colors for internal person
#[test]
fn element_colors_internal_person() {
    let element = Element::new(ElementType::person("User", "Description"), Position::new(0, 0));

    let (bg, border) = element_colors(&element, false);
    assert_eq!(bg, Rgb::new(255, 220, 180));
    assert_eq!(border, Rgb::new(150, 150, 150));
}

/// Verifies element_colors returns correct colors for external person
#[test]
fn element_colors_external_person() {
    let element = Element::new(
        ElementType::external_person("External", "Description"),
        Position::new(0, 0),
    );

    let (bg, _) = element_colors(&element, false);
    assert_eq!(bg, Rgb::new(255, 240, 220));
}

/// Verifies element_colors returns correct colors for internal system
#[test]
fn element_colors_internal_system() {
    let element = Element::new(ElementType::system("System", "Description"), Position::new(0, 0));

    let (bg, _) = element_colors(&element, false);
    assert_eq!(bg, Rgb::new(200, 220, 255));
}

/// Verifies element_colors returns correct colors for external system
#[test]
fn element_colors_external_system() {
    let element = Element::new(
        ElementType::external_system("External", "Description"),
        Position::new(0, 0),
    );

    let (bg, _) = element_colors(&element, false);
    assert_eq!(bg, Rgb::new(230, 230, 230));
}

/// Verifies element_colors returns correct colors for database container
#[test]
fn element_colors_database_container() {
    let element = Element::new(
        ElementType::container("DB", "Database", ContainerType::Database, "PostgreSQL"),
        Position::new(0, 0),
    );

    let (bg, _) = element_colors(&element, false);
    assert_eq!(bg, Rgb::new(200, 255, 200));
}

/// Verifies element_colors returns correct colors for queue container
#[test]
fn element_colors_queue_container() {
    let element = Element::new(
        ElementType::container("Queue", "Message Queue", ContainerType::Queue, "RabbitMQ"),
        Position::new(0, 0),
    );

    let (bg, _) = element_colors(&element, false);
    assert_eq!(bg, Rgb::new(255, 255, 200));
}

/// Verifies element_colors returns correct colors for web container
#[test]
fn element_colors_web_container() {
    let element = Element::new(
        ElementType::container("Web", "Web App", ContainerType::WebApplication, "React"),
        Position::new(0, 0),
    );

    let (bg, _) = element_colors(&element, false);
    assert_eq!(bg, Rgb::new(220, 240, 255));
}

/// Verifies element_colors returns selected border color when selected
#[test]
fn element_colors_selected() {
    let element = Element::new(ElementType::person("User", "Description"), Position::new(0, 0));

    let (_, border) = element_colors(&element, true);
    assert_eq!(border, Rgb::new(0, 120, 215));
}

/// Verifies get_element_icon returns correct icon for person
#[test]
fn get_element_icon_person() {
    let element = Element::new(ElementType::person("User", "Description"), Position::new(0, 0));
    assert_eq!(get_element_icon(&element), "👤");
}

/// Verifies get_element_icon returns correct icon for system
#[test]
fn get_element_icon_system() {
    let element = Element::new(ElementType::system("System", "Description"), Position::new(0, 0));
    assert_eq!(get_element_icon(&element), "🖥️");
}

/// Verifies get_element_icon returns correct icon for database container
#[test]
fn get_element_icon_database() {
    let element = Element::new(
        ElementType::container("DB", "Database", ContainerType::Database, "PostgreSQL"),
        Position::new(0, 0),
    );
    assert_eq!(get_element_icon(&element), "🗄️");
}

/// Verifies get_element_icon returns correct icon for mobile app container
#[test]
fn get_element_icon_mobile_app() {
    let element = Element::new(
        ElementType::container("App", "Mobile App", ContainerType::MobileApp, "iOS"),
        Position::new(0, 0),
    );
    assert_eq!(get_element_icon(&element), "📱");
}

/// Verifies get_element_icon returns correct icon for queue container
#[test]
fn get_element_icon_queue() {
    let element = Element::new(
        ElementType::container("Queue", "Message Queue", ContainerType::Queue, "RabbitMQ"),
        Position::new(0, 0),
    );
    assert_eq!(get_element_icon(&element), "📨");
}

/// Verifies get_element_icon returns correct icon for other container kinds
#[test]
fn get_element_icon_other() {
    let element = Element::new(
        ElementType::container("Custom", "Custom Type", ContainerType::Other("Custom".to_string()), ""),
        Position::new(0, 0),
    );
    assert_eq!(get_element_icon(&element), "📦");
}

/// Verifies correct grid layout calculation at the row boundary
#[test]
fn default_element_position_row_wrap() {
    let pos_3 = default_element_position(3);
    assert_eq!(pos_3.x, 50);
    assert_eq!(pos_3.y, 200);
}

/// Verifies get_element_icon returns correct icon for external person
#[test]
fn get_element_icon_external_person() {
    let element = Element::new(
        ElementType::external_person("External", "Description"),
        Position::new(0, 0),
    );
    assert_eq!(get_element_icon(&element), "👤");
}

/// Verifies get_element_icon returns correct icon for external system
#[test]
fn get_element_icon_external_system() {
    let element = Element::new(
        ElementType::external_system("External", "Description"),
        Position::new(0, 0),
    );
    assert_eq!(get_element_icon(&element), "🖥️");
}

/// Verifies get_element_icon returns correct icon for web application container
#[test]
fn get_element_icon_web_application() {
    let element = Element::new(
        ElementType::container("Web", "Web App", ContainerType::WebApplication, "React"),
        Position::new(0, 0),
    );
    assert_eq!(get_element_icon(&element), "📦");
}

/// Verifies get_element_icon returns correct icon for microservice container
#[test]
fn get_element_icon_microservice() {
    let element = Element::new(
        ElementType::container("Service", "Microservice", ContainerType::Microservice, "Rust"),
        Position::new(0, 0),
    );
    assert_eq!(get_element_icon(&element), "📦");
}

/// Verifies rectangle intersection for overlapping, touching, and disjoint
/// rectangles
#[test]
fn rects_intersect_cases() {
    let a = Position::new(0, 0);
    let asz = Size::new(100, 100);
    assert!(rects_intersect(a, asz, Position::new(50, 50), Size::new(10, 10)));
    assert!(rects_intersect(a, asz, Position::new(100, 0), Size::new(10, 10)));
    assert!(!rects_intersect(a, asz, Position::new(101, 0), Size::new(10, 10)));
    assert!(!rects_intersect(a, asz, Position::new(0, 200), Size::new(10, 10)));
}

/// Verifies the library's format version tag
#[test]
fn default_version_is_current() {
    assert_eq!(c2draw::default_version(), "1.0");
}
