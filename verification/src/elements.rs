//! The typed elements that appear on a diagram: people, software systems,
//! and containers, each with a name, a description, and per-variant data.

use vstd::prelude::*;
use vstd::string::StringExecFns;
use crate::geometry::{Position, Positioned, Size};
use crate::ids::ElementId;

verus! {

/// The kind of a deployable unit in a container diagram.
#[derive(Clone, Debug, PartialEq)]
pub enum ContainerType {
    WebApplication,
    MobileApp,
    Database,
    Microservice,
    Queue,
    Other(String),
}

/// Mathematical model of a `ContainerType`.
pub enum ContainerTypeView {
    WebApplication,
    MobileApp,
    Database,
    Microservice,
    Queue,
    Other(Seq<char>),
}

impl View for ContainerType {
    type V = ContainerTypeView;

    open spec fn view(&self) -> ContainerTypeView {
        match self {
            ContainerType::WebApplication => ContainerTypeView::WebApplication,
            ContainerType::MobileApp => ContainerTypeView::MobileApp,
            ContainerType::Database => ContainerTypeView::Database,
            ContainerType::Microservice => ContainerTypeView::Microservice,
            ContainerType::Queue => ContainerTypeView::Queue,
            ContainerType::Other(s) => ContainerTypeView::Other(s@),
        }
    }
}

/// The display label of each container kind; a free-form kind shows its own
/// label.
pub open spec fn container_type_label(v: ContainerTypeView) -> Seq<char> {
    match v {
        ContainerTypeView::WebApplication => "Web Application"@,
        ContainerTypeView::MobileApp => "Mobile App"@,
        ContainerTypeView::Database => "Database"@,
        ContainerTypeView::Microservice => "Microservice"@,
        ContainerTypeView::Queue => "Message Queue"@,
        ContainerTypeView::Other(s) => s,
    }
}

impl ContainerType {
    pub fn as_str(&self) -> (r: &str)
        ensures
            r@ == container_type_label(self@),
    {
        match self {
            ContainerType::WebApplication => "Web Application",
            ContainerType::MobileApp => "Mobile App",
            ContainerType::Database => "Database",
            ContainerType::Microservice => "Microservice",
            ContainerType::Queue => "Message Queue",
            ContainerType::Other(s) => s.as_str(),
        }
    }
}

/// A person or actor.
#[derive(Clone, Debug, PartialEq)]
pub struct PersonData {
    pub name: String,
    pub description: String,
    pub is_external: bool,
}

/// A software system.
#[derive(Clone, Debug, PartialEq)]
pub struct SystemData {
    pub name: String,
    pub description: String,
    pub is_external: bool,
}

/// A deployable unit within a software system.
#[derive(Clone, Debug, PartialEq)]
pub struct ContainerData {
    pub name: String,
    pub description: String,
    pub container_type: ContainerType,
    pub technology: String,
}

/// The closed set of element variants, with per-variant payload.
#[derive(Clone, Debug, PartialEq)]
pub enum ElementType {
    Person(PersonData),
    SoftwareSystem(SystemData),
    Container(ContainerData),
}

/// Mathematical model of an `ElementType`.
pub enum ElementTypeView {
    Person { name: Seq<char>, description: Seq<char>, is_external: bool },
    SoftwareSystem { name: Seq<char>, description: Seq<char>, is_external: bool },
    Container {
        name: Seq<char>,
        description: Seq<char>,
        container_type: ContainerTypeView,
        technology: Seq<char>,
    },
}

impl View for ElementType {
    type V = ElementTypeView;

    open spec fn view(&self) -> ElementTypeView {
        match self {
            ElementType::Person(d) => ElementTypeView::Person {
                name: d.name@,
                description: d.description@,
                is_external: d.is_external,
            },
            ElementType::SoftwareSystem(d) => ElementTypeView::SoftwareSystem {
                name: d.name@,
                description: d.description@,
                is_external: d.is_external,
            },
            ElementType::Container(d) => ElementTypeView::Container {
                name: d.name@,
                description: d.description@,
                container_type: d.container_type@,
                technology: d.technology@,
            },
        }
    }
}

/// The name carried by an element variant.
pub open spec fn name_of(v: ElementTypeView) -> Seq<char> {
    match v {
        ElementTypeView::Person { name, .. } => name,
        ElementTypeView::SoftwareSystem { name, .. } => name,
        ElementTypeView::Container { name, .. } => name,
    }
}

/// The description carried by an element variant.
pub open spec fn description_of(v: ElementTypeView) -> Seq<char> {
    match v {
        ElementTypeView::Person { description, .. } => description,
        ElementTypeView::SoftwareSystem { description, .. } => description,
        ElementTypeView::Container { description, .. } => description,
    }
}

/// Whether the variant is marked external; containers never are.
pub open spec fn external_of(v: ElementTypeView) -> bool {
    match v {
        ElementTypeView::Person { is_external, .. } => is_external,
        ElementTypeView::SoftwareSystem { is_external, .. } => is_external,
        ElementTypeView::Container { .. } => false,
    }
}

/// The same variant with its name replaced.
pub open spec fn with_name(v: ElementTypeView, name: Seq<char>) -> ElementTypeView {
    match v {
        ElementTypeView::Person { description, is_external, .. } => ElementTypeView::Person {
            name,
            description,
            is_external,
        },
        ElementTypeView::SoftwareSystem { description, is_external, .. } =>
            ElementTypeView::SoftwareSystem { name, description, is_external },
        ElementTypeView::Container { description, container_type, technology, .. } =>
            ElementTypeView::Container { name, description, container_type, technology },
    }
}

/// The same variant with its description replaced.
pub open spec fn with_description(v: ElementTypeView, description: Seq<char>) -> ElementTypeView {
    match v {
        ElementTypeView::Person { name, is_external, .. } => ElementTypeView::Person {
            name,
            description,
            is_external,
        },
        ElementTypeView::SoftwareSystem { name, is_external, .. } =>
            ElementTypeView::SoftwareSystem { name, description, is_external },
        ElementTypeView::Container { name, container_type, technology, .. } =>
            ElementTypeView::Container { name, description, container_type, technology },
    }
}

/// The default extent of each variant when first placed on the canvas.
pub open spec fn default_size_of(v: ElementTypeView) -> Size {
    match v {
        ElementTypeView::Person { .. } => Size { width: 120, height: 80 },
        ElementTypeView::SoftwareSystem { .. } => Size { width: 160, height: 100 },
        ElementTypeView::Container { .. } => Size { width: 160, height: 100 },
    }
}

impl ElementType {
    /// The display name of the variant itself.
    pub fn kind_name(&self) -> (r: &'static str)
        ensures
            self@ is Person ==> r@ == "Person"@,
            self@ is SoftwareSystem ==> r@ == "Software System"@,
            self@ is Container ==> r@ == "Container"@,
    {
        match self {
            ElementType::Person(_) => "Person",
            ElementType::SoftwareSystem(_) => "Software System",
            ElementType::Container(_) => "Container",
        }
    }

    /// The default extent for this variant.
    pub fn default_size(&self) -> (s: Size)
        ensures
            s == default_size_of(self@),
    {
        match self {
            ElementType::Person(_) => Size::new(120, 80),
            ElementType::SoftwareSystem(_) => Size::new(160, 100),
            ElementType::Container(_) => Size::new(160, 100),
        }
    }

    /// A person internal to the system under design.
    pub fn person(name: &str, description: &str) -> (r: ElementType)
        ensures
            r@ == (ElementTypeView::Person {
                name: name@,
                description: description@,
                is_external: false,
            }),
    {
        ElementType::Person(PersonData {
            name: String::from_str(name),
            description: String::from_str(description),
            is_external: false,
        })
    }

    /// A person outside the system under design.
    pub fn external_person(name: &str, description: &str) -> (r: ElementType)
        ensures
            r@ == (ElementTypeView::Person {
                name: name@,
                description: description@,
                is_external: true,
            }),
    {
        ElementType::Person(PersonData {
            name: String::from_str(name),
            description: String::from_str(description),
            is_external: true,
        })
    }

    /// A software system internal to the design.
    pub fn system(name: &str, description: &str) -> (r: ElementType)
        ensures
            r@ == (ElementTypeView::SoftwareSystem {
                name: name@,
                description: description@,
                is_external: false,
            }),
    {
        ElementType::SoftwareSystem(SystemData {
            name: String::from_str(name),
            description: String::from_str(description),
            is_external: false,
        })
    }

    /// A software system outside the design.
    pub fn external_system(name: &str, description: &str) -> (r: ElementType)
        ensures
            r@ == (ElementTypeView::SoftwareSystem {
                name: name@,
                description: description@,
                is_external: true,
            }),
    {
        ElementType::SoftwareSystem(SystemData {
            name: String::from_str(name),
            description: String::from_str(description),
            is_external: true,
        })
    }

    /// A container of the given kind and technology.
    pub fn container(
        name: &str,
        description: &str,
        container_type: ContainerType,
        technology: &str,
    ) -> (r: ElementType)
        ensures
            r@ == (ElementTypeView::Container {
                name: name@,
                description: description@,
                container_type: container_type@,
                technology: technology@,
            }),
    {
        ElementType::Container(ContainerData {
            name: String::from_str(name),
            description: String::from_str(description),
            container_type,
            technology: String::from_str(technology),
        })
    }
}

/// A visual element on the diagram canvas.
#[derive(Clone, Debug)]
pub struct Element {
    pub id: ElementId,
    pub element_type: ElementType,
    pub position: Position,
    pub size: Size,
}

/// Mathematical model of an `Element`.
pub struct ElementView {
    pub id: ElementId,
    pub element_type: ElementTypeView,
    pub position: Position,
    pub size: Size,
}

impl View for Element {
    type V = ElementView;

    open spec fn view(&self) -> ElementView {
        ElementView {
            id: self.id,
            element_type: self.element_type@,
            position: self.position,
            size: self.size,
        }
    }
}

impl DeepView for Element {
    type V = ElementView;

    open spec fn deep_view(&self) -> ElementView {
        self.view()
    }
}

impl Element {
    /// A fresh element of the given variant at the given position, with a
    /// newly generated identifier and the variant's default size.
    pub fn new(element_type: ElementType, position: Position) -> (r: Element)
        ensures
            r@.element_type == element_type@,
            r@.position == position,
            r@.size == default_size_of(element_type@),
            r@.id.0 != 0,
    {
        let size = element_type.default_size();
        Element { id: ElementId::new_v4(), element_type, position, size }
    }

    /// The element's display name.
    pub fn name(&self) -> (r: &str)
        ensures
            r@ == name_of(self@.element_type),
    {
        match &self.element_type {
            ElementType::Person(d) => d.name.as_str(),
            ElementType::SoftwareSystem(d) => d.name.as_str(),
            ElementType::Container(d) => d.name.as_str(),
        }
    }

    /// The element's description.
    pub fn description(&self) -> (r: &str)
        ensures
            r@ == description_of(self@.element_type),
    {
        match &self.element_type {
            ElementType::Person(d) => d.description.as_str(),
            ElementType::SoftwareSystem(d) => d.description.as_str(),
            ElementType::Container(d) => d.description.as_str(),
        }
    }

    /// Whether the element is marked external to the design.
    pub fn is_external(&self) -> (r: bool)
        ensures
            r == external_of(self@.element_type),
    {
        match &self.element_type {
            ElementType::Person(d) => d.is_external,
            ElementType::SoftwareSystem(d) => d.is_external,
            ElementType::Container(_) => false,
        }
    }

    /// Replaces the display name, leaving everything else unchanged.
    pub fn set_name(&mut self, name: String)
        ensures
            final(self)@ == (ElementView {
                element_type: with_name(old(self)@.element_type, name@),
                ..old(self)@
            }),
    {
        match &mut self.element_type {
            ElementType::Person(d) => d.name = name,
            ElementType::SoftwareSystem(d) => d.name = name,
            ElementType::Container(d) => d.name = name,
        }
    }

    /// Replaces the description, leaving everything else unchanged.
    pub fn set_description(&mut self, description: String)
        ensures
            final(self)@ == (ElementView {
                element_type: with_description(old(self)@.element_type, description@),
                ..old(self)@
            }),
    {
        match &mut self.element_type {
            ElementType::Person(d) => d.description = description,
            ElementType::SoftwareSystem(d) => d.description = description,
            ElementType::Container(d) => d.description = description,
        }
    }
}

impl Positioned for Element {
    open spec fn spec_position(&self) -> Position {
        self.position
    }

    open spec fn spec_size(&self) -> Size {
        self.size
    }

    fn position(&self) -> Position {
        self.position
    }

    fn set_position(&mut self, position: Position) {
        self.position = position;
    }

    fn size(&self) -> Size {
        self.size
    }

    fn set_size(&mut self, size: Size) {
        self.size = size;
    }
}

} // verus!
