//! Properties of all physical or virtual wheels of a device.
//!
//! Physical or virtual wheels represent the changes to the light beam within the device.
//! Typically color, gobo, prism, animation, content and others are described by wheels.

use vstd::prelude::*;
use crate::fixture_type::FixtureType;
use crate::physical_descriptions::Filter;
use crate::resource::{wheel_media_path, ResourceMap};
use crate::validation::{
    check_duplicate_names, check_link, check_missing_name, duplicate_name_errors, error_view,
    find_by_link, find_by_name, first_named, link_errors, missing_name_errors, named_link,
    name_string, opt_name, present_names, Named, ValidationError, ValidationErrorType,
    ValidationErrorTypeView, ValidationErrorView, ValidationObject, ValidationResult,
};
use crate::values::{ColorCie, Name, Node, Rotation};

verus! {

/// A physical or virtual wheel of a device.
#[derive(Debug)]
pub struct Wheel {
    /// The unique name of the wheel.
    pub name: Option<Name>,
    /// The slots of the wheel, in order.
    pub slots: Vec<WheelSlot>,
}

impl Named for Wheel {
    open spec fn name_view(&self) -> Option<Seq<char>> {
        opt_name(self.name)
    }

    fn name_ref(&self) -> (r: Option<&Name>) {
        self.name.as_ref()
    }
}

/// The errors the checks of `slots` record, first slot first.
pub open spec fn slot_errors(slots: Seq<WheelSlot>, ft: FixtureType, resources: ResourceMap) -> Seq<ValidationErrorView>
    decreases slots.len(),
{
    if slots.len() == 0 {
        Seq::<ValidationErrorView>::empty()
    } else {
        slot_errors(slots.drop_last(), ft, resources) + slots.last().validation_errors(ft, resources)
    }
}

impl Wheel {
    /// Looks up a [WheelSlot] by name.
    pub fn slot(&self, name: &str) -> (r: Option<&WheelSlot>)
        ensures
            match first_named(self.slots@, name@) {
                Some(i) => r == Some(&self.slots@[i]),
                None => r is None,
            },
    {
        find_by_name(&self.slots, name)
    }

    /// The problems [validate](Self::validate) records: a missing name, the first slot name
    /// that occurs twice, then the problems of each slot.
    pub open spec fn validation_errors(&self, ft: FixtureType, resources: ResourceMap) -> Seq<ValidationErrorView> {
        missing_name_errors(self.name, ValidationObject::Wheel) + duplicate_name_errors(
            present_names(self.slots@),
            ValidationObject::WheelSlot,
        ) + slot_errors(self.slots@, ft, resources)
    }

    /// Performs validation checks on the object.
    pub fn validate(&self, parent_fixture_type: &FixtureType, resource_map: &ResourceMap, result: &mut ValidationResult)
        ensures
            final(result)@ == old(result)@ + self.validation_errors(*parent_fixture_type, *resource_map),
    {
        check_missing_name(&self.name, ValidationObject::Wheel, result);
        check_duplicate_names(&self.slots, ValidationObject::WheelSlot, result);
        let ghost start = result@;
        let mut i: usize = 0;
        while i < self.slots.len()
            invariant
                i <= self.slots@.len(),
                result@ == start + slot_errors(self.slots@.subrange(0, i as int), *parent_fixture_type, *resource_map),
            decreases self.slots@.len() - i,
        {
            self.slots[i].validate(parent_fixture_type, resource_map, result);
            proof {
                assert(self.slots@.subrange(0, i + 1).drop_last() =~= self.slots@.subrange(0, i as int));
            }
            i = i + 1;
        }
        assert(self.slots@.subrange(0, i as int) =~= self.slots@);
        assert(result@ =~= old(result)@ + self.validation_errors(*parent_fixture_type, *resource_map));
    }
}

/// A slot of a [Wheel].
#[derive(Debug)]
pub struct WheelSlot {
    /// The name of the slot.
    pub name: Option<Name>,
    /// The color or filter of the slot.
    pub optic: WheelSlotOptic,
    /// The name of the media file of the slot, without folder or extension.
    pub media_name: Option<String>,
    /// The facets of a prism slot.
    pub facets: Vec<PrismFacet>,
    /// The animation system of an animation slot.
    pub animation_system: Option<AnimationSystem>,
}

impl Named for WheelSlot {
    open spec fn name_view(&self) -> Option<Seq<char>> {
        opt_name(self.name)
    }

    fn name_ref(&self) -> (r: Option<&Name>) {
        self.name.as_ref()
    }
}

/// Where the filter link of a wheel slot leads among the filters of `ft`, if the slot links a
/// filter.
pub open spec fn slot_filter(slot: WheelSlot, ft: FixtureType) -> Option<int> {
    match slot.optic {
        WheelSlotOptic::Filter(node) => named_link(ft.physical_descriptions.filters@, node@),
        _ => None,
    }
}

impl WheelSlot {
    /// Looks up the [Filter] linked by this slot.
    pub fn filter<'s>(&self, parent_fixture_type: &'s FixtureType) -> (r: Option<&'s Filter>)
        ensures
            match slot_filter(*self, *parent_fixture_type) {
                Some(i) => r == Some(&parent_fixture_type.physical_descriptions.filters@[i]),
                None => r is None,
            },
    {
        match &self.optic {
            WheelSlotOptic::Filter(node) => find_by_link(&parent_fixture_type.physical_descriptions.filters, node),
            _ => None,
        }
    }

    /// The problems [validate](Self::validate) records: a missing name, a media file that is
    /// not among the resources, then a filter link that leads nowhere.
    pub open spec fn validation_errors(&self, ft: FixtureType, resources: ResourceMap) -> Seq<ValidationErrorView> {
        missing_name_errors(self.name, ValidationObject::WheelSlot) + (match self.media_name {
            Some(m) => if resources.has(wheel_media_path(m@)) {
                Seq::<ValidationErrorView>::empty()
            } else {
                seq![error_view(ValidationObject::WheelSlot, opt_name(self.name), ValidationErrorTypeView::MediaNotFound(m@))]
            },
            None => Seq::<ValidationErrorView>::empty(),
        }) + (match self.optic {
            WheelSlotOptic::Filter(node) => link_errors(
                ValidationObject::WheelSlot,
                opt_name(self.name),
                slot_filter(*self, ft) is Some,
                ValidationObject::Filter,
                node@,
            ),
            _ => Seq::<ValidationErrorView>::empty(),
        })
    }

    /// Performs validation checks on the object.
    pub fn validate(&self, parent_fixture_type: &FixtureType, resource_map: &ResourceMap, result: &mut ValidationResult)
        ensures
            final(result)@ == old(result)@ + self.validation_errors(*parent_fixture_type, *resource_map),
    {
        check_missing_name(&self.name, ValidationObject::WheelSlot, result);
        let ghost after_name = result@;
        if let Some(media_name) = &self.media_name {
            let media_exists = resource_map.read_wheel_media(media_name.as_str()).is_ok();
            if !media_exists {
                result.push(ValidationError::new(
                    ValidationObject::WheelSlot,
                    name_string(&self.name),
                    ValidationErrorType::MediaNotFound(media_name.clone()),
                ));
            }
        }
        let ghost after_media = result@;
        assert(after_media == after_name + (match self.media_name {
            Some(m) => if resource_map.has(wheel_media_path(m@)) {
                Seq::<ValidationErrorView>::empty()
            } else {
                seq![error_view(ValidationObject::WheelSlot, opt_name(self.name), ValidationErrorTypeView::MediaNotFound(m@))]
            },
            None => Seq::<ValidationErrorView>::empty(),
        }));
        match &self.optic {
            WheelSlotOptic::Filter(node) => {
                let found = self.filter(parent_fixture_type).is_some();
                check_link(found, ValidationObject::WheelSlot, &self.name, ValidationObject::Filter, node, result);
            },
            _ => {},
        }
        assert(result@ =~= old(result)@ + self.validation_errors(*parent_fixture_type, *resource_map));
    }
}

/// The color or filter of a [WheelSlot].
#[derive(Debug)]
pub enum WheelSlotOptic {
    /// Color of the slot.
    Color(ColorCie),
    /// Link to a filter in the physical descriptions.
    Filter(Node),
}

impl WheelSlotOptic {
    /// The optic of a slot that names none: the color white.
    pub fn default() -> (r: WheelSlotOptic)
        ensures
            r == WheelSlotOptic::Color(ColorCie { x: 0x3fd40346dc5d6388, y: 0x3fd50e5604189375, z: 0x4059000000000000 }),
    {
        WheelSlotOptic::Color(ColorCie::white())
    }
}

/// A facet of a prism slot.
#[derive(Debug)]
pub struct PrismFacet {
    /// Color of the facet.
    pub color: ColorCie,
    /// Rotation, translation and scaling of the facet.
    pub rotation: Rotation,
}

/// The animation system of an animation wheel slot. Numbers are held as bit patterns of IEEE
/// 754 doubles.
#[derive(Debug)]
pub struct AnimationSystem {
    /// First point of the spline describing the path of the animation system, `[x, y]`.
    pub p1: [u64; 2],
    /// Second point of the spline, `[x, y]`.
    pub p2: [u64; 2],
    /// Third point of the spline, `[x, y]`.
    pub p3: [u64; 2],
    /// Radius of the circle that defines the section of the media.
    pub radius: u64,
}

} // verus!
