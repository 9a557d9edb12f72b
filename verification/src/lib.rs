//! The General Device Type Format (GDTF) is an open standard for describing devices of the
//! entertainment industry; its latest version is 1.2.
//!
//! This crate holds the object model of a GDTF description, which closely follows the structure
//! of the format, the text forms of its value types, and the checks that a
//! description is consistent: that every link leads somewhere, that names are unique where they
//! must be, and that every resource a description names is in the file.

pub mod attribute;
pub mod description;
pub mod dmx_mode;
pub mod fields;
pub mod fixture_type;
pub mod geometry;
pub mod model;
pub mod physical_descriptions;
pub mod resource;
pub mod result;
pub mod text;
pub mod validation;
pub mod values;
pub mod wheel;

use vstd::prelude::*;
use crate::description::{fixture_types_named, Description};
use crate::resource::ResourceMap;
use crate::validation::ValidationResult;

verus! {

/// A GDTF file: the description and the index of the resources packed beside it.
#[derive(Debug)]
pub struct GdtfFile {
    /// The description of the file.
    pub description: Description,
    /// The resources of the file.
    pub resources: ResourceMap,
}

impl GdtfFile {
    /// Performs validation checks on the description, against the resources of the file, and
    /// returns the problems found.
    pub fn validate(&self) -> (r: ValidationResult)
        requires
            fixture_types_named(self.description.fixture_types@),
        ensures
            r@ == self.description.validation_errors(self.resources),
    {
        let mut result = ValidationResult::new();
        self.description.validate(&self.resources, &mut result);
        assert(result@ =~= self.description.validation_errors(self.resources));
        result
    }
}

} // verus!
