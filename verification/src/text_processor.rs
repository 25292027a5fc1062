//! Data model of the semantic extraction boundary.
//!
//! The regex-driven extraction of entities, actions and properties from
//! raw text is an external collaborator; the library holds the plain
//! shapes it produces, which key the embedding memo tables and the
//! knowledge-graph export.
use vstd::prelude::*;

verus! {

/// Category of an extracted entity.
#[derive(Debug, Clone, Copy, PartialEq, Eq)]
pub enum EntityType {
    Person,
    Date,
    Location,
    Organization,
    ScientificTerm,
    Action,
    Property,
    Unknown,
}

impl EntityType {
    /// The provenance label of this category, as used in composite
    /// cache keys.
    pub open spec fn label_spec(self) -> Seq<char> {
        match self {
            EntityType::Person => "Person"@,
            EntityType::Date => "Date"@,
            EntityType::Location => "Location"@,
            EntityType::Organization => "Organization"@,
            EntityType::ScientificTerm => "ScientificTerm"@,
            EntityType::Action => "Action"@,
            EntityType::Property => "Property"@,
            EntityType::Unknown => "Unknown"@,
        }
    }

    /// The provenance label of this category.
    pub fn label(&self) -> (r: &'static str)
        ensures
            r@ == self.label_spec(),
    {
        match self {
            EntityType::Person => "Person",
            EntityType::Date => "Date",
            EntityType::Location => "Location",
            EntityType::Organization => "Organization",
            EntityType::ScientificTerm => "ScientificTerm",
            EntityType::Action => "Action",
            EntityType::Property => "Property",
            EntityType::Unknown => "Unknown",
        }
    }
}

/// An extracted entity: its surface text and category.
#[derive(Debug, Clone, PartialEq)]
pub struct Entity {
    pub text: String,
    pub entity_type: EntityType,
}

/// An extracted subject-verb-object action.
#[derive(Debug, Clone, PartialEq)]
pub struct Action {
    pub subject: String,
    pub verb: String,
    pub object: String,
}

/// An extracted entity-attribute-value property.
#[derive(Debug, Clone, PartialEq)]
pub struct Property {
    pub entity: String,
    pub attribute: String,
    pub value: String,
}

} // verus!
