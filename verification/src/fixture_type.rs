//! The starting point of the description of a fixture type.

use vstd::prelude::*;
use crate::attribute::AttributeDefinitions;
use crate::dmx_mode::{channels_named, yes_no_text, DmxMode};
use crate::geometry::{child_at, collect_names, descend, find_in_forest, preorder, Geometry};
use crate::model::Model;
use crate::physical_descriptions::PhysicalDescriptions;
use crate::resource::{thumbnail_path, FtThumbnailFormat, ResourceMap};
use crate::validation::{
    check_duplicate_names, check_missing_name, duplicate_name_errors, error_view, find_by_name,
    first_named, lemma_present_names_of_names, missing_name_errors, name_string, opt_name,
    present_names, Named, ValidationError, ValidationErrorType, ValidationErrorTypeView,
    ValidationErrorView, ValidationObject, ValidationResult,
};
use crate::values::{names_view, Name};
use crate::wheel::Wheel;

verus! {

#[verifier::external_type_specification]
#[verifier::external_body]
pub struct ExUuid(uuid::Uuid);

/// The description of a fixture type: its identity, and all its parts.
#[derive(Debug)]
pub struct FixtureType {
    /// Name of the fixture type, unique among the fixture types of a manufacturer.
    pub name: Option<Name>,
    /// Shortened name of the fixture type.
    pub short_name: String,
    /// Detailed name of the fixture type.
    pub long_name: String,
    /// Manufacturer of the device type.
    pub manufacturer: String,
    /// Description of the fixture type.
    pub description: String,
    /// Unique identifier of the fixture type.
    pub fixture_type_id: uuid::Uuid,
    /// Name of the thumbnail resources of the device, without extension.
    pub thumbnail: Option<String>,
    /// Horizontal offset in pixels from the top left corner of the thumbnail to the insertion
    /// point.
    pub thumbnail_offset_x: i32,
    /// Vertical offset in pixels from the top left corner of the thumbnail to the insertion
    /// point.
    pub thumbnail_offset_y: i32,
    /// Identifier of a referenced fixture type.
    pub ref_tf: Option<uuid::Uuid>,
    /// Whether the fixture type can have children in a multipatch.
    pub can_have_children: bool,
    /// The attributes of the device.
    pub attribute_definitions: AttributeDefinitions,
    /// The physical or virtual wheels of the device.
    pub wheels: Vec<Wheel>,
    /// The physical description of the device.
    pub physical_descriptions: PhysicalDescriptions,
    /// The models of the device.
    pub models: Vec<Model>,
    /// The top level geometries of the device.
    pub geometries: Vec<Geometry>,
    /// The DMX modes of the device.
    pub dmx_modes: Vec<DmxMode>,
}

impl Named for FixtureType {
    open spec fn name_view(&self) -> Option<Seq<char>> {
        opt_name(self.name)
    }

    fn name_ref(&self) -> (r: Option<&Name>) {
        self.name.as_ref()
    }
}

/// Every logical channel of every DMX mode of `ft` links an attribute, so that every DMX
/// channel and logical channel has a name.
pub open spec fn modes_named(ft: FixtureType) -> bool {
    forall|i: int| 0 <= i < ft.dmx_modes@.len() ==> channels_named(#[trigger] ft.dmx_modes@[i].dmx_channels@)
}

/// The value of [FixtureType::can_have_children] when a description gives none: children are
/// allowed.
pub fn default_fixture_type_can_have_children() -> (r: bool)
    ensures
        r,
{
    true
}

/// Whether a fixture type can have children, written as `s`: `Yes` or `No`.
pub open spec fn can_have_children_from_text(s: Seq<char>) -> Option<bool> {
    if s == "Yes"@ {
        Some(true)
    } else if s == "No"@ {
        Some(false)
    } else {
        None
    }
}

/// Reads whether a fixture type can have children from its text form; `None` when the text is
/// neither `Yes` nor `No`.
pub fn parse_fixture_type_can_have_children(text: &str) -> (r: Option<bool>)
    ensures
        r == can_have_children_from_text(text@),
{
    let v = crate::text::chars_of(text);
    assert(v@.subrange(0, v@.len() as int) =~= v@);
    if crate::text::range_eq(&v, 0, v.len(), "Yes") {
        Some(true)
    } else if crate::text::range_eq(&v, 0, v.len(), "No") {
        Some(false)
    } else {
        None
    }
}

/// The text form of whether a fixture type can have children: `Yes` or `No`.
pub fn fixture_type_can_have_children_text(value: bool) -> (r: &'static str)
    ensures
        r@ == yes_no_text(value),
{
    if value {
        "Yes"
    } else {
        "No"
    }
}

/// Whether a fixture type can have children, printed as text and read back, is unchanged.
pub proof fn lemma_can_have_children_text_roundtrip(b: bool)
    ensures
        can_have_children_from_text(yes_no_text(b)) == Some(b),
{
    reveal_strlit("Yes");
    reveal_strlit("No");
    if !b {
        assert("No"@ != "Yes"@) by {
            assert("No"@.len() != "Yes"@.len());
        }
    }
}

impl FixtureType {
    /// Looks up a [Wheel] by name.
    pub fn wheel(&self, name: &str) -> (r: Option<&Wheel>)
        ensures
            match first_named(self.wheels@, name@) {
                Some(i) => r == Some(&self.wheels@[i]),
                None => r is None,
            },
    {
        find_by_name(&self.wheels, name)
    }

    /// Looks up a [Model] by name.
    pub fn model(&self, name: &str) -> (r: Option<&Model>)
        ensures
            match first_named(self.models@, name@) {
                Some(i) => r == Some(&self.models@[i]),
                None => r is None,
            },
    {
        find_by_name(&self.models, name)
    }

    /// Looks up a top level [Geometry] by name.
    pub fn root_geometry(&self, name: &str) -> (r: Option<&Geometry>)
        ensures
            match first_named(self.geometries@, name@) {
                Some(i) => r == Some(&self.geometries@[i]),
                None => r is None,
            },
    {
        find_by_name(&self.geometries, name)
    }

    /// Looks up a [Geometry] by name anywhere in the tree of geometries: the first in
    /// depth-first order.
    pub fn nested_geometry(&self, name: &str) -> (r: Option<&Geometry>)
        ensures
            match first_named(preorder(self.geometries@), name@) {
                Some(i) => r == Some(&preorder(self.geometries@)[i]),
                None => r is None,
            },
    {
        find_in_forest(&self.geometries, name)
    }

    /// Looks up the [Geometry] a link leads to: its first name picks a top level geometry, and
    /// each further name a child of the geometry reached so far.
    pub fn geometry_node(&self, node: &[Name]) -> (r: Option<&Geometry>)
        ensures
            names_view(node@).len() == 0 ==> r is None,
            names_view(node@).len() > 0 ==> match first_named(self.geometries@, names_view(node@)[0]) {
                Some(i) => match child_at(self.geometries@[i], names_view(node@).drop_first()) {
                    Some(c) => r == Some(&c),
                    None => r is None,
                },
                None => r is None,
            },
    {
        if node.len() == 0 {
            return None;
        }
        let root = match self.root_geometry(node[0].as_str()) {
            Some(g) => g,
            None => return None,
        };
        assert(names_view(node@).subrange(1, node@.len() as int) =~= names_view(node@).drop_first());
        descend(root, node, 1)
    }

    /// Looks up a [DmxMode] by name.
    pub fn dmx_mode(&self, name: &str) -> (r: Option<&DmxMode>)
        ensures
            match first_named(self.dmx_modes@, name@) {
                Some(i) => r == Some(&self.dmx_modes@[i]),
                None => r is None,
            },
    {
        find_by_name(&self.dmx_modes, name)
    }
}

/// The problems the checks of `wheels` record, first wheel first.
pub open spec fn wheel_errors(wheels: Seq<Wheel>, ft: FixtureType, resources: ResourceMap) -> Seq<ValidationErrorView>
    decreases wheels.len(),
{
    if wheels.len() == 0 {
        Seq::<ValidationErrorView>::empty()
    } else {
        wheel_errors(wheels.drop_last(), ft, resources) + wheels.last().validation_errors(ft, resources)
    }
}

/// The problems the checks of `models` record, first model first.
pub open spec fn model_errors(models: Seq<Model>, resources: ResourceMap) -> Seq<ValidationErrorView>
    decreases models.len(),
{
    if models.len() == 0 {
        Seq::<ValidationErrorView>::empty()
    } else {
        model_errors(models.drop_last(), resources) + models.last().validation_errors(resources)
    }
}

/// The problems the checks of `modes` record, first mode first.
pub open spec fn mode_errors(modes: Seq<DmxMode>, ft: FixtureType) -> Seq<ValidationErrorView>
    decreases modes.len(),
{
    if modes.len() == 0 {
        Seq::<ValidationErrorView>::empty()
    } else {
        mode_errors(modes.drop_last(), ft) + modes.last().validation_errors(ft)
    }
}

/// The error reporting that none of the thumbnails named `thumbnail`, in SVG or PNG, is among
/// `resources`.
pub open spec fn thumbnail_errors(name: Option<Name>, thumbnail: Option<String>, resources: ResourceMap) -> Seq<ValidationErrorView> {
    match thumbnail {
        Some(t) => if resources.has(thumbnail_path(t@, FtThumbnailFormat::Svg)) || resources.has(
            thumbnail_path(t@, FtThumbnailFormat::Png),
        ) {
            Seq::<ValidationErrorView>::empty()
        } else {
            seq![error_view(ValidationObject::FixtureType, opt_name(name), ValidationErrorTypeView::ThumbnailNotFound(t@))]
        },
        None => Seq::<ValidationErrorView>::empty(),
    }
}

impl FixtureType {
    /// The problems of the fixture type itself: a missing name, a thumbnail that is not among
    /// the resources, and the first wheel, model, geometry (anywhere in the tree) and DMX mode
    /// names that occur twice.
    pub open spec fn own_errors(&self, resources: ResourceMap) -> Seq<ValidationErrorView> {
        missing_name_errors(self.name, ValidationObject::FixtureType)
            + thumbnail_errors(self.name, self.thumbnail, resources)
            + duplicate_name_errors(present_names(self.wheels@), ValidationObject::Wheel)
            + duplicate_name_errors(present_names(self.models@), ValidationObject::Model)
            + duplicate_name_errors(present_names(preorder(self.geometries@)), ValidationObject::Geometry)
            + duplicate_name_errors(present_names(self.dmx_modes@), ValidationObject::DmxMode)
    }

    /// The problems [validate](Self::validate) records: those of
    /// [own_errors](Self::own_errors), then the problems of each wheel, of the physical
    /// descriptions, of each model and of each DMX mode.
    pub open spec fn validation_errors(&self, resources: ResourceMap) -> Seq<ValidationErrorView> {
        self.own_errors(resources) + wheel_errors(self.wheels@, *self, resources)
            + self.physical_descriptions.validation_errors() + model_errors(self.models@, resources)
            + mode_errors(self.dmx_modes@, *self)
    }

    fn check_thumbnail(&self, resource_map: &ResourceMap, result: &mut ValidationResult)
        ensures
            final(result)@ == old(result)@ + thumbnail_errors(self.name, self.thumbnail, *resource_map),
    {
        if let Some(thumbnail) = &self.thumbnail {
            let thumbnail_exists = resource_map.read_ft_thumbnail(thumbnail.as_str(), FtThumbnailFormat::Svg).is_ok()
                || resource_map.read_ft_thumbnail(thumbnail.as_str(), FtThumbnailFormat::Png).is_ok();
            if !thumbnail_exists {
                result.push(ValidationError::new(
                    ValidationObject::FixtureType,
                    name_string(&self.name),
                    ValidationErrorType::ThumbnailNotFound(thumbnail.clone()),
                ));
            }
        }
        assert(result@ =~= old(result)@ + thumbnail_errors(self.name, self.thumbnail, *resource_map));
    }

    fn check_geometry_names(&self, result: &mut ValidationResult)
        ensures
            final(result)@ == old(result)@ + duplicate_name_errors(present_names(preorder(self.geometries@)), ValidationObject::Geometry),
    {
        let mut geometry_names: Vec<Name> = Vec::new();
        collect_names(&self.geometries, &mut geometry_names);
        proof {
            lemma_present_names_of_names(geometry_names@);
            assert(names_view(geometry_names@) =~= present_names(preorder(self.geometries@)));
        }
        check_duplicate_names(&geometry_names, ValidationObject::Geometry, result);
    }

    fn check_own(&self, resource_map: &ResourceMap, result: &mut ValidationResult)
        ensures
            final(result)@ == old(result)@ + self.own_errors(*resource_map),
    {
        check_missing_name(&self.name, ValidationObject::FixtureType, result);
        self.check_thumbnail(resource_map, result);
        check_duplicate_names(&self.wheels, ValidationObject::Wheel, result);
        check_duplicate_names(&self.models, ValidationObject::Model, result);
        self.check_geometry_names(result);
        check_duplicate_names(&self.dmx_modes, ValidationObject::DmxMode, result);
        assert(result@ =~= old(result)@ + self.own_errors(*resource_map));
    }

    /// Performs validation checks on the object.
    pub fn validate(&self, resource_map: &ResourceMap, result: &mut ValidationResult)
        requires
            modes_named(*self),
        ensures
            final(result)@ == old(result)@ + self.validation_errors(*resource_map),
    {
        self.check_own(resource_map, result);
        let ghost s0 = result@;
        let mut i: usize = 0;
        while i < self.wheels.len()
            invariant
                i <= self.wheels@.len(),
                result@ == s0 + wheel_errors(self.wheels@.subrange(0, i as int), *self, *resource_map),
            decreases self.wheels@.len() - i,
        {
            self.wheels[i].validate(self, resource_map, result);
            proof {
                assert(self.wheels@.subrange(0, i + 1).drop_last() =~= self.wheels@.subrange(0, i as int));
            }
            i = i + 1;
        }
        assert(self.wheels@.subrange(0, i as int) =~= self.wheels@);
        self.physical_descriptions.validate(result);
        let ghost s1 = result@;
        let mut j: usize = 0;
        while j < self.models.len()
            invariant
                j <= self.models@.len(),
                result@ == s1 + model_errors(self.models@.subrange(0, j as int), *resource_map),
            decreases self.models@.len() - j,
        {
            self.models[j].validate(resource_map, result);
            proof {
                assert(self.models@.subrange(0, j + 1).drop_last() =~= self.models@.subrange(0, j as int));
            }
            j = j + 1;
        }
        assert(self.models@.subrange(0, j as int) =~= self.models@);
        let ghost s2 = result@;
        let mut k: usize = 0;
        while k < self.dmx_modes.len()
            invariant
                k <= self.dmx_modes@.len(),
                modes_named(*self),
                result@ == s2 + mode_errors(self.dmx_modes@.subrange(0, k as int), *self),
            decreases self.dmx_modes@.len() - k,
        {
            assert(channels_named(self.dmx_modes@[k as int].dmx_channels@));
            self.dmx_modes[k].validate(self, result);
            proof {
                assert(self.dmx_modes@.subrange(0, k + 1).drop_last() =~= self.dmx_modes@.subrange(0, k as int));
            }
            k = k + 1;
        }
        assert(self.dmx_modes@.subrange(0, k as int) =~= self.dmx_modes@);
        assert(result@ =~= old(result)@ + self.validation_errors(*resource_map));
    }
}

/// A thumbnail is found when either its SVG or its PNG form is among the resources: the
/// fixture type's own checks report a thumbnail as not found only when it names one, neither
/// `name.svg` nor `name.png` is among the resources, and the error names that thumbnail; and
/// they do report it then.
pub proof fn lemma_thumbnail_not_found_exactly(ft: FixtureType, resources: ResourceMap)
    ensures
        forall|i: int|
            0 <= i < ft.own_errors(resources).len() && (#[trigger] ft.own_errors(resources)[i]).error_type
                is ThumbnailNotFound ==> match ft.thumbnail {
                Some(t) => !resources.has(thumbnail_path(t@, FtThumbnailFormat::Svg)) && !resources.has(
                    thumbnail_path(t@, FtThumbnailFormat::Png)) && ft.own_errors(resources)[i] == error_view(
                    ValidationObject::FixtureType,
                    opt_name(ft.name),
                    ValidationErrorTypeView::ThumbnailNotFound(t@),
                ),
                None => false,
            },
        match ft.thumbnail {
            Some(t) => !resources.has(thumbnail_path(t@, FtThumbnailFormat::Svg)) && !resources.has(
                thumbnail_path(t@, FtThumbnailFormat::Png)) ==> ft.own_errors(resources).contains(
                error_view(ValidationObject::FixtureType, opt_name(ft.name), ValidationErrorTypeView::ThumbnailNotFound(t@)),
            ),
            None => true,
        },
{
    let m = missing_name_errors(ft.name, ValidationObject::FixtureType);
    let t = thumbnail_errors(ft.name, ft.thumbnail, resources);
    let d1 = duplicate_name_errors(present_names(ft.wheels@), ValidationObject::Wheel);
    let d2 = duplicate_name_errors(present_names(ft.models@), ValidationObject::Model);
    let d3 = duplicate_name_errors(present_names(preorder(ft.geometries@)), ValidationObject::Geometry);
    let d4 = duplicate_name_errors(present_names(ft.dmx_modes@), ValidationObject::DmxMode);
    let all = ft.own_errors(resources);
    assert(all == m + t + d1 + d2 + d3 + d4);
    assert forall|i: int| 0 <= i < all.len() && (#[trigger] all[i]).error_type is ThumbnailNotFound implies i
        >= m.len() && i < m.len() + t.len() && all[i] == t[i - m.len()] by {
        if i < m.len() {
            assert(all[i] == m[i]);
        } else if i >= m.len() + t.len() {
            let k = i - m.len() - t.len();
            if k < d1.len() {
                assert(all[i] == d1[k]);
            } else if k < d1.len() + d2.len() {
                assert(all[i] == d2[k - d1.len()]);
            } else if k < d1.len() + d2.len() + d3.len() {
                assert(all[i] == d3[k - d1.len() - d2.len()]);
            } else {
                assert(all[i] == d4[k - d1.len() - d2.len() - d3.len()]);
            }
        } else {
            assert(all[i] == t[i - m.len()]);
        }
    }
    if t.len() > 0 {
        assert(all[m.len() as int] == t[0]);
    }
}

} // verus!
