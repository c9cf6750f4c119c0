//! Tests for the PlantUML and Mermaid exporters.

use c2draw::diagram::{Diagram, DiagramType};
use c2draw::elements::{ContainerType, Element, ElementType};
use c2draw::export::DiagramExporter;
use c2draw::geometry::Position;
use c2draw::ids::ElementId;
use c2draw::mermaid::MermaidExporter;
use c2draw::plantuml::PlantUmlExporter;
use c2draw::relationship::Relationship;

/// Test helper struct implementing DiagramExporter
struct TestExporter;

impl TestExporter {
    fn new() -> Self {
        Self
    }
}

impl DiagramExporter for TestExporter {
    fn export(&self, diagram: &Diagram) -> String {
        format!("Test export of: {}", diagram.name)
    }

    fn file_extension(&self) -> &'static str {
        "test"
    }
}

/// Verifies DiagramExporter trait can be implemented and export method works
#[test]
fn diagram_exporter_export_method() {
    let exporter = TestExporter::new();
    let diagram = Diagram::new("My Diagram", "", DiagramType::SystemContext);

    let result = exporter.export(&diagram);
    assert_eq!(result, "Test export of: My Diagram");
}

/// Verifies DiagramExporter trait file_extension method works
#[test]
fn diagram_exporter_file_extension_method() {
    let exporter = TestExporter::new();
    assert_eq!(exporter.file_extension(), "test");
}

/// Verifies real exporters implement the trait correctly
#[test]
fn plantuml_exporter_implements_trait() {
    let exporter = PlantUmlExporter::new();
    let diagram = Diagram::new("Test", "", DiagramType::SystemContext);

    let output = exporter.export(&diagram);
    assert!(!output.is_empty());
    assert_eq!(exporter.file_extension(), "puml");
}

/// Verifies MermaidExporter implements the trait correctly
#[test]
fn mermaid_exporter_implements_trait() {
    let exporter = MermaidExporter::new();
    let diagram = Diagram::new("Test", "", DiagramType::SystemContext);

    let output = exporter.export(&diagram);
    assert!(!output.is_empty());
    assert_eq!(exporter.file_extension(), "mmd");
}

/// Verifies export produces non-empty output for diagrams with elements
#[test]
fn export_produces_output_with_elements() {
    let exporter = TestExporter::new();
    let mut diagram = Diagram::new("Test", "", DiagramType::SystemContext);
    let element = Element::new(ElementType::person("User", "Description"), Position::new(0, 0));
    diagram.add_element(element);

    let result = exporter.export(&diagram);
    assert!(!result.is_empty());
}

/// Verifies escape_string escapes double quotes
#[test]
fn plantuml_escape_string_escapes_quotes() {
    let exporter = PlantUmlExporter::new();
    let input = r#"This has "quotes" in it"#;
    let result = exporter.escape_string(input);
    assert_eq!(result, r#"This has \"quotes\" in it"#);
}

/// Verifies escape_string replaces newlines with spaces
#[test]
fn plantuml_escape_string_replaces_newlines() {
    let exporter = PlantUmlExporter::new();
    let input = "Line1\nLine2\nLine3";
    let result = exporter.escape_string(input);
    assert_eq!(result, "Line1 Line2 Line3");
}

/// Verifies escape_string handles combined special characters
#[test]
fn plantuml_escape_string_handles_combined_special_chars() {
    let exporter = PlantUmlExporter::new();
    let input = "Description with \"quotes\" and\nnewlines";
    let result = exporter.escape_string(input);
    assert_eq!(result, "Description with \\\"quotes\\\" and newlines");
}

/// Verifies escape_string leaves normal text unchanged
#[test]
fn plantuml_escape_string_leaves_normal_text() {
    let exporter = PlantUmlExporter::new();
    let input = "Normal text without special characters";
    let result = exporter.escape_string(input);
    assert_eq!(result, "Normal text without special characters");
}

/// Verifies generate_element creates correct output for internal person
#[test]
fn plantuml_generate_element_internal_person() {
    let exporter = PlantUmlExporter::new();
    let element = Element::new(ElementType::person("User", "A user"), Position::new(0, 0));
    let id: String = element.id.to_hex().into_iter().collect();
    let id = format!("elem_{}", id);

    let result = exporter.generate_element(&element);
    assert!(result.contains("Person"));
    assert!(result.contains(&id));
    assert!(result.contains("User"));
    assert!(result.contains("A user"));
    assert!(!result.contains("Person_Ext"));
}

/// Verifies generate_element creates correct output for external person
#[test]
fn plantuml_generate_element_external_person() {
    let exporter = PlantUmlExporter::new();
    let element = Element::new(
        ElementType::external_person("External User", "External"),
        Position::new(0, 0),
    );

    let result = exporter.generate_element(&element);
    assert!(result.contains("Person_Ext"));
    assert!(result.contains("External User"));
}

/// Verifies generate_element creates correct output for internal system
#[test]
fn plantuml_generate_element_internal_system() {
    let exporter = PlantUmlExporter::new();
    let element = Element::new(ElementType::system("MySystem", "A system"), Position::new(0, 0));

    let result = exporter.generate_element(&element);
    assert!(result.contains("System("));
    assert!(!result.contains("System_Ext"));
    assert!(result.contains("MySystem"));
}

/// Verifies generate_element creates correct output for external system
#[test]
fn plantuml_generate_element_external_system() {
    let exporter = PlantUmlExporter::new();
    let element = Element::new(
        ElementType::external_system("External System", "External"),
        Position::new(0, 0),
    );

    let result = exporter.generate_element(&element);
    assert!(result.contains("System_Ext"));
}

/// Verifies generate_element creates correct output for container
#[test]
fn plantuml_generate_element_container() {
    let exporter = PlantUmlExporter::new();
    let element = Element::new(
        ElementType::container("WebApp", "A web app", ContainerType::WebApplication, "React"),
        Position::new(0, 0),
    );

    let result = exporter.generate_element(&element);
    assert!(result.contains("Container("));
    assert!(result.contains("WebApp"));
    assert!(result.contains("A web app"));
    assert!(result.contains("React"));
}

/// Verifies generate_element creates ContainerDb for database containers
#[test]
fn generate_element_database_container() {
    let exporter = PlantUmlExporter::new();
    let element = Element::new(
        ElementType::container("Database", "Stores data", ContainerType::Database, "PostgreSQL"),
        Position::new(0, 0),
    );

    let result = exporter.generate_element(&element);
    assert!(result.contains("ContainerDb"));
}

/// Verifies generate_element creates ContainerQueue for queue containers
#[test]
fn generate_element_queue_container() {
    let exporter = PlantUmlExporter::new();
    let element = Element::new(
        ElementType::container("Queue", "Message queue", ContainerType::Queue, "RabbitMQ"),
        Position::new(0, 0),
    );

    let result = exporter.generate_element(&element);
    assert!(result.contains("ContainerQueue"));
}

/// Verifies generate_element handles empty technology
#[test]
fn plantuml_generate_element_empty_technology() {
    let exporter = PlantUmlExporter::new();
    let element = Element::new(
        ElementType::container("App", "An app", ContainerType::Microservice, ""),
        Position::new(0, 0),
    );

    let result = exporter.generate_element(&element);
    assert!(result.contains("Container("));
    assert!(!result.contains("\"\""));
}

/// Verifies generate_relationship creates correct output without technology
#[test]
fn plantuml_generate_relationship_without_technology() {
    let exporter = PlantUmlExporter::new();
    let source_id = ElementId::new_v4();
    let target_id = ElementId::new_v4();
    let rel = Relationship::new(source_id, target_id, "uses");

    let result = exporter.generate_relationship(&rel);
    assert!(result.contains("Rel("));
    assert!(result.contains("uses"));
    assert!(!result.contains("\", \""));
}

/// Verifies generate_relationship creates correct output with technology
#[test]
fn plantuml_generate_relationship_with_technology() {
    let exporter = PlantUmlExporter::new();
    let source_id = ElementId::new_v4();
    let target_id = ElementId::new_v4();
    let rel = Relationship::with_technology(source_id, target_id, "uses", "HTTPS");

    let result = exporter.generate_relationship(&rel);
    assert!(result.contains("Rel("));
    assert!(result.contains("uses"));
    assert!(result.contains("HTTPS"));
}

/// Verifies export produces valid PlantUML output
#[test]
fn export_produces_valid_plantuml() {
    let exporter = PlantUmlExporter::new();
    let mut diagram = Diagram::new("Test Diagram", "Test Description", DiagramType::SystemContext);

    let element = Element::new(ElementType::person("User", "A user"), Position::new(0, 0));
    diagram.add_element(element);

    let result = exporter.export(&diagram);

    assert!(result.starts_with("@startuml"));
    assert!(result.ends_with("@enduml\n"));
    assert!(result.contains("!include"));
    assert!(result.contains("C4_Context.puml"));
    assert!(result.contains("title Test Diagram"));
    assert!(result.contains("' Test Description"));
    assert!(result.contains("Person"));
}

/// Verifies export pulls in the container library for Container diagrams
#[test]
fn export_uses_correct_include_for_container() {
    let exporter = PlantUmlExporter::new();
    let diagram = Diagram::new("Test", "", DiagramType::Container);

    let result = exporter.export(&diagram);
    assert!(result.contains("C4_Container.puml"));
    assert!(!result.contains("C4_Context.puml"));
}

/// Verifies export handles empty diagrams
#[test]
fn export_handles_empty_diagram() {
    let exporter = PlantUmlExporter::new();
    let diagram = Diagram::new("Empty", "", DiagramType::SystemContext);

    let result = exporter.export(&diagram);
    assert!(result.starts_with("@startuml"));
    assert!(result.ends_with("@enduml\n"));
}

/// Verifies export includes relationships
#[test]
fn export_includes_relationships() {
    let exporter = PlantUmlExporter::new();
    let mut diagram = Diagram::new("Test", "", DiagramType::SystemContext);

    let source = Element::new(ElementType::person("User", "A user"), Position::new(0, 0));
    let target = Element::new(ElementType::system("System", "A system"), Position::new(100, 0));
    let source_id = source.id;
    let target_id = target.id;

    diagram.add_element(source);
    diagram.add_element(target);
    diagram.add_relationship(Relationship::new(source_id, target_id, "uses"));

    let result = exporter.export(&diagram);
    assert!(result.contains("Rel("));
    assert!(result.contains("uses"));
}

/// Verifies escape_string escapes double quotes
#[test]
fn mermaid_escape_string_escapes_quotes() {
    let exporter = MermaidExporter::new();
    let input = r#"This has "quotes" in it"#;
    let result = exporter.escape_string(input);
    assert_eq!(result, r#"This has \"quotes\" in it"#);
}

/// Verifies escape_string replaces newlines with spaces
#[test]
fn mermaid_escape_string_replaces_newlines() {
    let exporter = MermaidExporter::new();
    let input = "Line1\nLine2\nLine3";
    let result = exporter.escape_string(input);
    assert_eq!(result, "Line1 Line2 Line3");
}

/// Verifies escape_string handles combined special characters
#[test]
fn mermaid_escape_string_handles_combined_special_chars() {
    let exporter = MermaidExporter::new();
    let input = "Description with \"quotes\" and\nnewlines";
    let result = exporter.escape_string(input);
    assert_eq!(result, "Description with \\\"quotes\\\" and newlines");
}

/// Verifies escape_string leaves normal text unchanged
#[test]
fn mermaid_escape_string_leaves_normal_text() {
    let exporter = MermaidExporter::new();
    let input = "Normal text without special characters";
    let result = exporter.escape_string(input);
    assert_eq!(result, "Normal text without special characters");
}

/// Verifies generate_element creates correct output for internal person
#[test]
fn mermaid_generate_element_internal_person() {
    let exporter = MermaidExporter::new();
    let element = Element::new(ElementType::person("User", "A user"), Position::new(0, 0));

    let result = exporter.generate_element(&element);
    assert!(result.contains("Person("));
    assert!(result.contains("User"));
    assert!(!result.contains("Person_Ext"));
}

/// Verifies generate_element creates correct output for external person
#[test]
fn mermaid_generate_element_external_person() {
    let exporter = MermaidExporter::new();
    let element = Element::new(
        ElementType::external_person("External User", "External"),
        Position::new(0, 0),
    );

    let result = exporter.generate_element(&element);
    assert!(result.contains("Person_Ext"));
}

/// Verifies Mermaid containers share one macro whatever their kind
#[test]
fn mermaid_db_and_queue_share_container_macro() {
    let exporter = MermaidExporter::new();
    let db = Element::new(
        ElementType::container("DB", "Data", ContainerType::Database, "PostgreSQL"),
        Position::new(0, 0),
    );
    let queue = Element::new(
        ElementType::container("Q", "Msgs", ContainerType::Queue, "RabbitMQ"),
        Position::new(0, 0),
    );

    let db_line = exporter.generate_element(&db);
    let queue_line = exporter.generate_element(&queue);
    assert!(db_line.contains("Container("));
    assert!(queue_line.contains("Container("));
    assert!(!db_line.contains("ContainerDb"));
    assert!(!queue_line.contains("ContainerQueue"));
}

/// Verifies generate_relationship uses the BiRel macro
#[test]
fn mermaid_generate_relationship() {
    let exporter = MermaidExporter::new();
    let rel = Relationship::with_technology(
        ElementId::new_v4(),
        ElementId::new_v4(),
        "uses",
        "HTTPS",
    );

    let result = exporter.generate_relationship(&rel);
    assert!(result.contains("BiRel("));
    assert!(result.contains("uses"));
    assert!(result.contains("HTTPS"));
}

/// Verifies Mermaid export produces valid output for system context
#[test]
fn mermaid_export_system_context() {
    let exporter = MermaidExporter::new();
    let mut diagram = Diagram::new("My Context", "Notes", DiagramType::SystemContext);
    let element = Element::new(ElementType::person("User", "A user"), Position::new(0, 0));
    diagram.add_element(element);

    let output = exporter.export(&diagram);

    assert!(output.starts_with("C4Context"));
    assert!(output.contains("title My Context"));
    assert!(output.contains("%% Notes"));
    assert!(output.contains("Person("));
}

/// Verifies Mermaid export uses the container keyword for container diagrams
#[test]
fn mermaid_export_container() {
    let exporter = MermaidExporter::new();
    let diagram = Diagram::new("Containers", "", DiagramType::Container);

    let output = exporter.export(&diagram);
    assert!(output.starts_with("C4Container"));
}

/// Verifies get_diagram_keyword maps both diagram types
#[test]
fn mermaid_get_diagram_keyword() {
    let exporter = MermaidExporter::new();
    assert_eq!(exporter.get_diagram_keyword(DiagramType::SystemContext), "C4Context");
    assert_eq!(exporter.get_diagram_keyword(DiagramType::Container), "C4Container");
}

/// Verifies get_include maps both diagram types
#[test]
fn plantuml_get_include() {
    let exporter = PlantUmlExporter::new();
    assert_eq!(exporter.get_include(DiagramType::SystemContext), "C4_Context.puml");
    assert_eq!(exporter.get_include(DiagramType::Container), "C4_Container.puml");
}

/// Verifies the exported element id is the fixed prefix plus 32 hex digits
#[test]
fn exported_id_is_prefix_plus_hex() {
    let exporter = PlantUmlExporter::new();
    let element = Element::new(ElementType::person("User", "A user"), Position::new(0, 0));
    let hex: String = element.id.to_hex().into_iter().collect();
    assert_eq!(hex.len(), 32);
    assert!(hex.chars().all(|c| c.is_ascii_hexdigit() && !c.is_ascii_uppercase()));

    let line = exporter.generate_element(&element);
    assert!(line.contains(&format!("elem_{}", hex)));
}

/// Verifies Mermaid generate_element creates correct output for internal system
#[test]
fn mermaid_generate_element_internal_system() {
    let exporter = MermaidExporter::new();
    let element = Element::new(ElementType::system("MySystem", "A system"), Position::new(0, 0));

    let result = exporter.generate_element(&element);
    assert!(result.contains("System("));
    assert!(!result.contains("System_Ext"));
    assert!(result.contains("MySystem"));
}

/// Verifies Mermaid generate_element creates correct output for external system
#[test]
fn mermaid_generate_element_external_system() {
    let exporter = MermaidExporter::new();
    let element = Element::new(
        ElementType::external_system("External System", "External"),
        Position::new(0, 0),
    );

    let result = exporter.generate_element(&element);
    assert!(result.contains("System_Ext("));
}

/// Verifies Mermaid generate_element creates correct output for container
#[test]
fn mermaid_generate_element_container() {
    let exporter = MermaidExporter::new();
    let element = Element::new(
        ElementType::container("WebApp", "A web app", ContainerType::WebApplication, "React"),
        Position::new(0, 0),
    );

    let result = exporter.generate_element(&element);
    assert!(result.contains("Container("));
    assert!(result.contains("WebApp"));
    assert!(result.contains("A web app"));
    assert!(result.contains("React"));
}

/// Verifies Mermaid generate_element handles empty technology
#[test]
fn mermaid_generate_element_empty_technology() {
    let exporter = MermaidExporter::new();
    let element = Element::new(
        ElementType::container("App", "An app", ContainerType::Microservice, ""),
        Position::new(0, 0),
    );

    let result = exporter.generate_element(&element);
    assert!(result.contains("Container("));
    let comma_count = result.matches(',').count();
    assert_eq!(comma_count, 2);
}

/// Verifies generate_element uses proper indentation
#[test]
fn generate_element_uses_proper_indentation() {
    let exporter = MermaidExporter::new();
    let element = Element::new(ElementType::person("User", "Description"), Position::new(0, 0));

    let result = exporter.generate_element(&element);
    assert!(result.starts_with("    "));
}

/// Verifies Mermaid generate_relationship creates correct output without technology
#[test]
fn mermaid_generate_relationship_without_technology() {
    let exporter = MermaidExporter::new();
    let source_id = ElementId::new_v4();
    let target_id = ElementId::new_v4();
    let rel = Relationship::new(source_id, target_id, "uses");

    let result = exporter.generate_relationship(&rel);
    assert!(result.contains("BiRel("));
    assert!(result.contains("uses"));
    assert!(!result.contains("\", \""));
}

/// Verifies Mermaid generate_relationship creates correct output with technology
#[test]
fn mermaid_generate_relationship_with_technology() {
    let exporter = MermaidExporter::new();
    let source_id = ElementId::new_v4();
    let target_id = ElementId::new_v4();
    let rel = Relationship::with_technology(source_id, target_id, "uses", "HTTPS");

    let result = exporter.generate_relationship(&rel);
    assert!(result.contains("BiRel("));
    assert!(result.contains("uses"));
    assert!(result.contains("HTTPS"));
}

/// Verifies generate_relationship uses proper indentation
#[test]
fn generate_relationship_uses_proper_indentation() {
    let exporter = MermaidExporter::new();
    let source_id = ElementId::new_v4();
    let target_id = ElementId::new_v4();
    let rel = Relationship::new(source_id, target_id, "uses");

    let result = exporter.generate_relationship(&rel);
    assert!(result.starts_with("    "));
}

/// Verifies export produces valid Mermaid output
#[test]
fn export_produces_valid_mermaid() {
    let exporter = MermaidExporter::new();
    let mut diagram = Diagram::new("Test Diagram", "Test Description", DiagramType::SystemContext);

    let element = Element::new(ElementType::person("User", "A user"), Position::new(0, 0));
    diagram.add_element(element);

    let result = exporter.export(&diagram);

    assert!(result.starts_with("C4Context"));
    assert!(result.contains("title Test Diagram"));
    assert!(result.contains("%% Test Description"));
    assert!(result.contains("Person("));
}

/// Verifies export uses correct diagram keyword for Container diagrams
#[test]
fn export_uses_correct_keyword_for_container() {
    let exporter = MermaidExporter::new();
    let diagram = Diagram::new("Test", "", DiagramType::Container);

    let result = exporter.export(&diagram);
    assert!(result.starts_with("C4Container"));
    assert!(!result.contains("C4Context"));
}

/// Verifies Mermaid export handles empty diagrams
#[test]
fn mermaid_export_handles_empty_diagram() {
    let exporter = MermaidExporter::new();
    let diagram = Diagram::new("Empty", "", DiagramType::SystemContext);

    let result = exporter.export(&diagram);
    assert!(result.starts_with("C4Context"));
}

/// Verifies Mermaid export includes relationships
#[test]
fn mermaid_export_includes_relationships() {
    let exporter = MermaidExporter::new();
    let mut diagram = Diagram::new("Test", "", DiagramType::SystemContext);

    let source = Element::new(ElementType::person("User", "A user"), Position::new(0, 0));
    let target = Element::new(ElementType::system("System", "A system"), Position::new(100, 0));
    let source_id = source.id;
    let target_id = target.id;

    diagram.add_element(source);
    diagram.add_element(target);
    diagram.add_relationship(Relationship::new(source_id, target_id, "uses"));

    let result = exporter.export(&diagram);
    assert!(result.contains("BiRel("));
    assert!(result.contains("uses"));
}

/// Verifies export omits title when empty
#[test]
fn export_omits_empty_title() {
    let exporter = MermaidExporter::new();
    let mut diagram = Diagram::new("", "Description", DiagramType::SystemContext);

    let element = Element::new(ElementType::person("User", "A user"), Position::new(0, 0));
    diagram.add_element(element);

    let result = exporter.export(&diagram);
    assert!(!result.contains("title"));
}

/// Verifies export includes description as comment
#[test]
fn export_includes_description_as_comment() {
    let exporter = MermaidExporter::new();
    let diagram = Diagram::new("Test", "A description", DiagramType::SystemContext);

    let result = exporter.export(&diagram);
    assert!(result.contains("%% A description"));
}
