//! The attributes a device defines, as far as links into them are resolved: each attribute
//! with its name and its sub physical units.

use vstd::prelude::*;
use crate::validation::{find_by_name, first_named, opt_name, Named};
use crate::values::Name;

verus! {

/// The attributes defined by a fixture type.
#[derive(Debug)]
pub struct AttributeDefinitions {
    /// The attributes, in the order of the description.
    pub attributes: Vec<Attribute>,
}

impl AttributeDefinitions {
    /// Looks up an [Attribute] by name.
    pub fn attribute(&self, name: &str) -> (r: Option<&Attribute>)
        ensures
            match first_named(self.attributes@, name@) {
                Some(i) => r == Some(&self.attributes@[i]),
                None => r is None,
            },
    {
        find_by_name(&self.attributes, name)
    }
}

/// An attribute: a function of a device that channels control.
#[derive(Debug)]
pub struct Attribute {
    /// The unique name of the attribute.
    pub name: Option<Name>,
    /// The sub physical units of the attribute.
    pub subphysical_units: Vec<SubPhysicalUnit>,
}

impl Named for Attribute {
    open spec fn name_view(&self) -> Option<Seq<char>> {
        opt_name(self.name)
    }

    fn name_ref(&self) -> (r: Option<&Name>) {
        self.name.as_ref()
    }
}

/// A sub physical unit of an [Attribute], known by its type.
#[derive(Debug)]
pub struct SubPhysicalUnit {
    /// The type of the unit, as the description writes it.
    pub type_: String,
}

} // verus!
