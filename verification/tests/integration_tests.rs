//! End-to-end tests: full diagram construction, text persistence
//! round-trips, and export of complete diagrams.

use c2draw::codec::ParseError;
use c2draw::diagram::{Diagram, DiagramType};
use c2draw::elements::{ContainerType, Element, ElementType};
use c2draw::export::DiagramExporter;
use c2draw::geometry::Position;
use c2draw::ids::ElementId;
use c2draw::mermaid::MermaidExporter;
use c2draw::plantuml::PlantUmlExporter;
use c2draw::relationship::Relationship;

/// Creates a complete system context diagram for testing
fn create_system_context_diagram() -> Diagram {
    let mut diagram = Diagram::new(
        "System Context Diagram",
        "A simple system context diagram for testing",
        DiagramType::SystemContext,
    );

    let user = Element::new(
        ElementType::person("User", "An end user of the system"),
        Position::new(50, 100),
    );
    let user_id = user.id;
    diagram.add_element(user);

    let external = Element::new(
        ElementType::external_system("External API", "Third-party service"),
        Position::new(300, 50),
    );
    let external_id = external.id;
    diagram.add_element(external);

    let system = Element::new(
        ElementType::system("My Application", "The main application"),
        Position::new(300, 200),
    );
    let system_id = system.id;
    diagram.add_element(system);

    diagram.add_relationship(Relationship::new(user_id, system_id, "uses"));
    diagram.add_relationship(Relationship::with_technology(
        system_id,
        external_id,
        "fetches data from",
        "HTTPS/JSON",
    ));

    diagram
}

/// Creates a complete container diagram for testing
fn create_container_diagram() -> Diagram {
    let mut diagram = Diagram::new(
        "Container Diagram",
        "A container diagram for testing",
        DiagramType::Container,
    );

    let user = Element::new(ElementType::person("User", "An end user"), Position::new(50, 150));
    let user_id = user.id;
    diagram.add_element(user);

    let web_app = Element::new(
        ElementType::container(
            "Web Application",
            "Delivers the web UI",
            ContainerType::WebApplication,
            "React",
        ),
        Position::new(300, 100),
    );
    let web_app_id = web_app.id;
    diagram.add_element(web_app);

    let api = Element::new(
        ElementType::container("API", "Handles business logic", ContainerType::Microservice, "Rust/Axum"),
        Position::new(300, 250),
    );
    let api_id = api.id;
    diagram.add_element(api);

    let database = Element::new(
        ElementType::container("Database", "Stores user data", ContainerType::Database, "PostgreSQL"),
        Position::new(550, 250),
    );
    let database_id = database.id;
    diagram.add_element(database);

    let queue = Element::new(
        ElementType::container("Message Queue", "Async processing", ContainerType::Queue, "RabbitMQ"),
        Position::new(550, 100),
    );
    let queue_id = queue.id;
    diagram.add_element(queue);

    diagram.add_relationship(Relationship::new(user_id, web_app_id, "visits"));
    diagram.add_relationship(Relationship::with_technology(web_app_id, api_id, "calls", "REST API"));
    diagram.add_relationship(Relationship::with_technology(api_id, database_id, "reads/writes", "SQL"));
    diagram.add_relationship(Relationship::with_technology(api_id, queue_id, "publishes to", "AMQP"));

    diagram
}

/// Verifies a complete system context diagram can be created
#[test]
fn create_system_context_diagram_workflow() {
    let diagram = create_system_context_diagram();

    assert_eq!(diagram.name, "System Context Diagram");
    assert_eq!(diagram.diagram_type, DiagramType::SystemContext);
    assert_eq!(diagram.elements.len(), 3);
    assert_eq!(diagram.relationships.len(), 2);
}

/// Verifies a complete container diagram can be created
#[test]
fn create_container_diagram_workflow() {
    let diagram = create_container_diagram();

    assert_eq!(diagram.name, "Container Diagram");
    assert_eq!(diagram.diagram_type, DiagramType::Container);
    assert_eq!(diagram.elements.len(), 5);
    assert_eq!(diagram.relationships.len(), 4);
}

/// Verifies elements can be modified after being added to diagram
#[test]
fn modify_elements_in_diagram() {
    let mut diagram = create_system_context_diagram();

    let element_id = diagram.elements[0].id;
    assert!(diagram.set_element_name(element_id, "Modified Name".to_string()));
    assert!(diagram.set_element_position(element_id, Position::new(999, 888)));

    let element = diagram.get_element(element_id).unwrap();
    assert_eq!(element.name(), "Modified Name");
    assert_eq!(element.position.x, 999);
    assert_eq!(element.position.y, 888);
}

/// Verifies removing an element cascades to relationships
#[test]
fn remove_element_cascades_to_relationships() {
    let mut diagram = create_system_context_diagram();
    let initial_rel_count = diagram.relationships.len();
    assert_eq!(initial_rel_count, 2);

    let user_id: ElementId = diagram
        .elements
        .iter()
        .find(|e: &&Element| e.name() == "User")
        .unwrap()
        .id;

    diagram.remove_element(user_id);

    assert_eq!(diagram.elements.len(), 2);
    assert_eq!(diagram.relationships.len(), 1);
}

/// Verifies relationship queries work correctly
#[test]
fn relationship_queries_integration() {
    let diagram = create_container_diagram();

    let api_id: ElementId = diagram
        .elements
        .iter()
        .find(|e: &&Element| e.name() == "API")
        .unwrap()
        .id;

    let connected = diagram.relationships_connected_to(api_id);
    assert_eq!(connected.len(), 3);

    let incoming = diagram.relationships_to(api_id);
    assert_eq!(incoming.len(), 1);

    let outgoing = diagram.relationships_from(api_id);
    assert_eq!(outgoing.len(), 2);
}

/// Verifies a complete diagram survives a text round trip
#[test]
fn diagram_text_roundtrip() {
    let original = create_system_context_diagram();
    let element_ids: Vec<ElementId> = original.elements.iter().map(|e| e.id).collect();
    let relationship_count = original.relationships.len();

    let text = original.to_text();
    let restored = Diagram::from_text(&text).expect("Failed to restore diagram");

    assert_eq!(restored.name, original.name);
    assert_eq!(restored.description, original.description);
    assert_eq!(restored.diagram_type, original.diagram_type);
    assert_eq!(restored.elements.len(), original.elements.len());
    assert_eq!(restored.relationships.len(), relationship_count);

    for id in element_ids {
        assert!(restored.get_element(id).is_some());
    }
}

/// Verifies the round trip preserves every element and relationship field
#[test]
fn text_roundtrip_preserves_fields() {
    let original = create_container_diagram();
    let restored = Diagram::from_text(&original.to_text()).expect("Failed to restore");

    for (a, b) in original.elements.iter().zip(restored.elements.iter()) {
        assert_eq!(a.id, b.id);
        assert_eq!(a.position, b.position);
        assert_eq!(a.size, b.size);
        assert_eq!(a.element_type, b.element_type);
    }
    for (a, b) in original.relationships.iter().zip(restored.relationships.iter()) {
        assert_eq!(a.id, b.id);
        assert_eq!(a.source_id, b.source_id);
        assert_eq!(a.target_id, b.target_id);
        assert_eq!(a.description, b.description);
        assert_eq!(a.technology, b.technology);
    }
}

/// Verifies strings with quotes, newlines and non-ASCII text round-trip
#[test]
fn text_roundtrip_awkward_strings() {
    let mut diagram = Diagram::new("A \"quoted\"\nname", "desc with \\ and 日本語", DiagramType::Container);
    let e = Element::new(
        ElementType::container(
            "c4d X N E R",
            "+0000000000000010 ",
            ContainerType::Other("läbel\n\"x\"".to_string()),
            "",
        ),
        Position::new(-7, 12),
    );
    diagram.add_element(e);

    let restored = Diagram::from_text(&diagram.to_text()).expect("Failed to restore");
    assert_eq!(restored.name, diagram.name);
    assert_eq!(restored.description, diagram.description);
    assert_eq!(restored.elements[0].element_type, diagram.elements[0].element_type);
    assert_eq!(restored.elements[0].position, Position::new(-7, 12));
}

/// Verifies the serialized text carries the format version
#[test]
fn text_includes_version() {
    let diagram = Diagram::new("Test", "", DiagramType::SystemContext);
    let text = diagram.to_text();

    assert!(text.starts_with("c4d "));
    assert!(text.contains("1.0"));
}

/// Verifies an unknown version tag loads and is restored to the current one
#[test]
fn unknown_version_defaults_to_current() {
    let mut diagram = Diagram::new("Test", "", DiagramType::SystemContext);
    diagram.version = "9.9".to_string();

    let restored = Diagram::from_text(&diagram.to_text()).expect("Failed to restore");
    assert_eq!(restored.version, "1.0");
}

/// Verifies malformed text fails with a parse error
#[test]
fn malformed_text_fails() {
    assert_eq!(Diagram::from_text("").err(), Some(ParseError));
    assert_eq!(Diagram::from_text("not a diagram").err(), Some(ParseError));
    let valid = create_system_context_diagram().to_text();
    let cut = &valid[..valid.len() - 10];
    assert_eq!(Diagram::from_text(cut).err(), Some(ParseError));
    let trailing = format!("{}xyz", valid);
    assert_eq!(Diagram::from_text(&trailing).err(), Some(ParseError));
}

/// Verifies diagram can be saved and loaded multiple times
#[test]
fn multiple_save_load_cycles() {
    let mut diagram = create_system_context_diagram();

    for i in 0..5 {
        let text = diagram.to_text();
        diagram = Diagram::from_text(&text).expect("Failed to restore");

        let id = diagram.elements[0].id;
        diagram.set_element_name(id, format!("Version {}", i));
    }

    assert_eq!(diagram.elements.len(), 3);
}

/// Verifies PlantUML export produces valid output for system context
#[test]
fn plantuml_export_system_context() {
    let diagram = create_system_context_diagram();
    let exporter = PlantUmlExporter::new();

    let output = exporter.export(&diagram);

    assert!(output.contains("@startuml"));
    assert!(output.contains("@enduml"));
    assert!(output.contains("C4_Context.puml"));
    assert!(output.contains("title System Context Diagram"));
    assert!(output.contains("Person"));
    assert!(output.contains("System"));
    assert!(output.contains("Rel("));
}

/// Verifies PlantUML export produces valid output for container diagram
#[test]
fn plantuml_export_container() {
    let diagram = create_container_diagram();
    let exporter = PlantUmlExporter::new();

    let output = exporter.export(&diagram);

    assert!(output.contains("C4_Container.puml"));
    assert!(output.contains("Container("));
    assert!(output.contains("ContainerDb"));
    assert!(output.contains("ContainerQueue"));
}

/// Verifies Mermaid export produces valid output for the full context diagram
#[test]
fn mermaid_export_full_system_context() {
    let diagram = create_system_context_diagram();
    let exporter = MermaidExporter::new();

    let output = exporter.export(&diagram);

    assert!(output.starts_with("C4Context"));
    assert!(output.contains("title System Context Diagram"));
    assert!(output.contains("Person("));
    assert!(output.contains("BiRel("));
}

/// Verifies Mermaid export produces valid output for the full container diagram
#[test]
fn mermaid_export_full_container() {
    let diagram = create_container_diagram();
    let exporter = MermaidExporter::new();

    let output = exporter.export(&diagram);

    assert!(output.starts_with("C4Container"));
    assert!(output.contains("Container("));
}

/// Verifies exports contain all elements
#[test]
fn export_contains_all_elements() {
    let diagram = create_container_diagram();
    let plantuml = PlantUmlExporter::new().export(&diagram);
    let mermaid = MermaidExporter::new().export(&diagram);

    for element in diagram.elements.iter() {
        let name: &str = element.name();
        assert!(plantuml.contains(name), "PlantUML export missing element: {}", name);
        assert!(mermaid.contains(name), "Mermaid export missing element: {}", name);
    }
}

/// Verifies exports contain all relationships
#[test]
fn export_contains_all_relationships() {
    let diagram = create_system_context_diagram();
    let plantuml = PlantUmlExporter::new().export(&diagram);
    let mermaid = MermaidExporter::new().export(&diagram);

    for rel in &diagram.relationships {
        assert!(
            plantuml.contains(&rel.description),
            "PlantUML export missing relationship: {}",
            rel.description
        );
        assert!(
            mermaid.contains(&rel.description),
            "Mermaid export missing relationship: {}",
            rel.description
        );
    }
}

/// Full workflow: Create -> Modify -> Save -> Load -> Export
#[test]
fn full_workflow_create_modify_save_load_export() {
    let mut diagram = Diagram::new(
        "E2E Test Diagram",
        "Testing complete workflow",
        DiagramType::SystemContext,
    );

    let user = Element::new(ElementType::person("User", "End user"), Position::new(50, 50));
    let user_id = user.id;
    diagram.add_element(user);

    let system = Element::new(ElementType::system("System", "Main system"), Position::new(200, 50));
    let system_id = system.id;
    diagram.add_element(system);

    diagram.add_relationship(Relationship::new(user_id, system_id, "uses"));

    diagram.name = "Modified E2E Test".to_string();
    diagram.set_element_name(user_id, "Modified User".to_string());

    let text = diagram.to_text();

    let loaded = Diagram::from_text(&text).expect("Failed to restore");

    let plantuml = PlantUmlExporter::new().export(&loaded);
    let mermaid = MermaidExporter::new().export(&loaded);

    assert_eq!(loaded.name, "Modified E2E Test");
    assert!(plantuml.contains("Modified User"));
    assert!(mermaid.contains("Modified User"));
    assert!(plantuml.contains("uses"));
    assert!(mermaid.contains("uses"));
}

/// Tests empty diagram handling
#[test]
fn empty_diagram_workflow() {
    let diagram = Diagram::new("Empty", "", DiagramType::SystemContext);

    let text = diagram.to_text();
    let loaded = Diagram::from_text(&text).expect("Failed to restore empty");

    assert!(loaded.elements.is_empty());
    assert!(loaded.relationships.is_empty());

    let plantuml = PlantUmlExporter::new().export(&loaded);
    let mermaid = MermaidExporter::new().export(&loaded);

    assert!(plantuml.contains("@startuml"));
    assert!(plantuml.contains("@enduml"));
    assert!(mermaid.starts_with("C4Context"));
}

/// Tests diagram with external elements
#[test]
fn external_elements_workflow() {
    let mut diagram = Diagram::new("External Test", "", DiagramType::SystemContext);

    let external_person = Element::new(
        ElementType::external_person("Customer", "External customer"),
        Position::new(0, 0),
    );
    let external_system = Element::new(
        ElementType::external_system("Payment Gateway", "Stripe"),
        Position::new(200, 0),
    );
    let internal = Element::new(
        ElementType::system("Our System", "Main application"),
        Position::new(100, 100),
    );

    diagram.add_element(external_person);
    diagram.add_element(external_system);
    diagram.add_element(internal);

    let plantuml = PlantUmlExporter::new().export(&diagram);
    let mermaid = MermaidExporter::new().export(&diagram);

    assert!(plantuml.contains("Person_Ext") || plantuml.contains("System_Ext"));
    assert!(mermaid.contains("Person_Ext") || mermaid.contains("System_Ext"));
}
