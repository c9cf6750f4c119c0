//! Directed, labeled connections between two diagram elements.

use vstd::prelude::*;
use vstd::string::StringExecFns;
use crate::ids::ElementId;

verus! {

/// A directed connection from a source element to a target element, with a
/// description and an optional technology label. Immutable after
/// construction.
#[derive(Clone, Debug, PartialEq)]
pub struct Relationship {
    pub id: ElementId,
    pub source_id: ElementId,
    pub target_id: ElementId,
    pub description: String,
    pub technology: Option<String>,
}

/// Mathematical model of a `Relationship`.
pub struct RelationshipView {
    pub id: ElementId,
    pub source_id: ElementId,
    pub target_id: ElementId,
    pub description: Seq<char>,
    pub technology: Option<Seq<char>>,
}

impl View for Relationship {
    type V = RelationshipView;

    open spec fn view(&self) -> RelationshipView {
        RelationshipView {
            id: self.id,
            source_id: self.source_id,
            target_id: self.target_id,
            description: self.description@,
            technology: match &self.technology {
                Some(t) => Some(t@),
                None => None,
            },
        }
    }
}

impl DeepView for Relationship {
    type V = RelationshipView;

    open spec fn deep_view(&self) -> RelationshipView {
        self.view()
    }
}

impl Relationship {
    /// A fresh relationship with no technology label.
    pub fn new(source_id: ElementId, target_id: ElementId, description: &str) -> (r: Relationship)
        ensures
            r@.source_id == source_id,
            r@.target_id == target_id,
            r@.description == description@,
            r@.technology is None,
            r@.id.0 != 0,
    {
        Relationship {
            id: ElementId::new_v4(),
            source_id,
            target_id,
            description: String::from_str(description),
            technology: None,
        }
    }

    /// A fresh relationship carrying a technology label.
    pub fn with_technology(
        source_id: ElementId,
        target_id: ElementId,
        description: &str,
        technology: &str,
    ) -> (r: Relationship)
        ensures
            r@.source_id == source_id,
            r@.target_id == target_id,
            r@.description == description@,
            r@.technology == Some(technology@),
            r@.id.0 != 0,
    {
        Relationship {
            id: ElementId::new_v4(),
            source_id,
            target_id,
            description: String::from_str(description),
            technology: Some(String::from_str(technology)),
        }
    }

    /// A value-equal copy of the relationship.
    pub fn duplicate(&self) -> (r: Relationship)
        ensures
            r@ == self@,
    {
        Relationship {
            id: self.id,
            source_id: self.source_id,
            target_id: self.target_id,
            description: self.description.clone(),
            technology: match &self.technology {
                Some(t) => Some(t.clone()),
                None => None,
            },
        }
    }
}

} // verus!
