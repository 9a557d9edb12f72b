//! Describes the physical constitution of a device.

use vstd::prelude::*;
use crate::text::{chars_of, decimal, parse_unsigned, parse_unsigned_range, push_decimal, string_from_chars};
use crate::validation::{
    all_errors, check_duplicate_names, check_missing_name, concat_all, duplicate_name_errors,
    error_view, find_by_name, first_duplicate, first_named, missing_name_errors, opt_name,
    present_names, validate_all, Check, Named, ValidationError, ValidationErrorType,
    ValidationErrorTypeView, ValidationErrorView, ValidationObject, ValidationResult,
};
use crate::values::{float_bits_eq, float_bits_equal, ColorCie, Name};

verus! {

/// The first number in `s` that compares equal (as doubles) to a number before it.
pub open spec fn first_float_duplicate(s: Seq<u64>) -> Option<u64>
    decreases s.len(),
{
    if s.len() == 0 {
        None
    } else {
        match first_float_duplicate(s.drop_last()) {
            Some(x) => Some(x),
            None => if exists|k: int| 0 <= k < s.len() - 1 && float_bits_eq(#[trigger] s[k], s.last()) {
                Some(s.last())
            } else {
                None
            },
        }
    }
}

/// Physical description of a device.
#[derive(Debug)]
pub struct PhysicalDescriptions {
    /// Additive light sources.
    pub emitters: Vec<Emitter>,
    /// Subtractive filters.
    pub filters: Vec<Filter>,
    /// The color space of the device.
    pub color_space: Option<ColorSpace>,
    /// Further color spaces of the device.
    pub additional_color_spaces: Vec<ColorSpace>,
    /// Color gamuts of the device.
    pub gamuts: Vec<Gamut>,
    /// DMX profiles of the device.
    pub dmx_profiles: Vec<DmxProfile>,
    /// Color rendering indices of the device.
    pub cri_groups: Vec<CriGroup>,
    /// Physical connectors of the device.
    pub connectors: Vec<Connector>,
    /// Physical properties of the device.
    pub properties: Properties,
}

/// The main color space followed by the additional ones.
pub open spec fn all_color_spaces(p: &PhysicalDescriptions) -> Seq<ColorSpace> {
    let main = match p.color_space {
        Some(c) => seq![c],
        None => Seq::<ColorSpace>::empty(),
    };
    main + p.additional_color_spaces@
}

impl PhysicalDescriptions {
    /// An empty physical description.
    pub fn new() -> (r: PhysicalDescriptions)
        ensures
            r.emitters@.len() == 0 && r.filters@.len() == 0 && r.color_space is None
                && r.additional_color_spaces@.len() == 0 && r.gamuts@.len() == 0
                && r.dmx_profiles@.len() == 0 && r.cri_groups@.len() == 0 && r.connectors@.len() == 0,
            r.properties.operating_temperature is None && r.properties.weight is None
                && r.properties.leg_height is None,
    {
        PhysicalDescriptions {
            emitters: Vec::new(),
            filters: Vec::new(),
            color_space: None,
            additional_color_spaces: Vec::new(),
            gamuts: Vec::new(),
            dmx_profiles: Vec::new(),
            cri_groups: Vec::new(),
            connectors: Vec::new(),
            properties: Properties { operating_temperature: None, weight: None, leg_height: None },
        }
    }

    /// Looks up an [Emitter] by name.
    pub fn emitter(&self, name: &str) -> (r: Option<&Emitter>)
        ensures
            match first_named(self.emitters@, name@) {
                Some(i) => r == Some(&self.emitters@[i]),
                None => r is None,
            },
    {
        find_by_name(&self.emitters, name)
    }

    /// Looks up a [Filter] by name.
    pub fn filter(&self, name: &str) -> (r: Option<&Filter>)
        ensures
            match first_named(self.filters@, name@) {
                Some(i) => r == Some(&self.filters@[i]),
                None => r is None,
            },
    {
        find_by_name(&self.filters, name)
    }

    /// Looks up a [ColorSpace] by name: the main color space first, then the additional ones.
    pub fn color_space(&self, name: &str) -> (r: Option<&ColorSpace>)
        ensures
            match self.color_space {
                Some(c) if c.name_view() == Some(name@) => r == Some(&c),
                _ => match first_named(self.additional_color_spaces@, name@) {
                    Some(i) => r == Some(&self.additional_color_spaces@[i]),
                    None => r is None,
                },
            },
    {
        if let Some(color_space) = &self.color_space {
            let hit = match color_space.name_ref() {
                Some(n) => n.is(name),
                None => false,
            };
            if hit {
                return Some(color_space);
            }
        }
        find_by_name(&self.additional_color_spaces, name)
    }

    /// Looks up a [Gamut] by name.
    pub fn gamut(&self, name: &str) -> (r: Option<&Gamut>)
        ensures
            match first_named(self.gamuts@, name@) {
                Some(i) => r == Some(&self.gamuts@[i]),
                None => r is None,
            },
    {
        find_by_name(&self.gamuts, name)
    }

    /// Looks up a [DmxProfile] by name.
    pub fn dmx_profile(&self, name: &str) -> (r: Option<&DmxProfile>)
        ensures
            match first_named(self.dmx_profiles@, name@) {
                Some(i) => r == Some(&self.dmx_profiles@[i]),
                None => r is None,
            },
    {
        find_by_name(&self.dmx_profiles, name)
    }

    /// Looks up a [Connector] by name.
    pub fn connector(&self, name: &str) -> (r: Option<&Connector>)
        ensures
            match first_named(self.connectors@, name@) {
                Some(i) => r == Some(&self.connectors@[i]),
                None => r is None,
            },
    {
        find_by_name(&self.connectors, name)
    }

    /// The problems [validate](Self::validate) records: duplicate names among emitters,
    /// filters, color spaces, gamuts, DMX profiles and connectors, then the checks of each
    /// emitter, color space, gamut, DMX profile, CRI group and connector.
    pub open spec fn validation_errors(&self) -> Seq<ValidationErrorView> {
        self.duplicate_errors() + self.member_errors()
    }

    /// The duplicate names among emitters, filters, color spaces, gamuts, DMX profiles and
    /// connectors, in that order.
    pub open spec fn duplicate_errors(&self) -> Seq<ValidationErrorView> {
        duplicate_name_errors(present_names(self.emitters@), ValidationObject::Emitter)
            + duplicate_name_errors(present_names(self.filters@), ValidationObject::Filter)
            + duplicate_name_errors(present_names(all_color_spaces(self)), ValidationObject::ColorSpace)
            + duplicate_name_errors(present_names(self.gamuts@), ValidationObject::Gamut)
            + duplicate_name_errors(present_names(self.dmx_profiles@), ValidationObject::DmxProfile)
            + duplicate_name_errors(present_names(self.connectors@), ValidationObject::Connector)
    }

    /// The checks of each emitter, color space, gamut, DMX profile, CRI group and connector, in
    /// that order.
    pub open spec fn member_errors(&self) -> Seq<ValidationErrorView> {
        all_errors(self.emitters@) + all_errors(all_color_spaces(self)) + all_errors(self.gamuts@)
            + all_errors(self.dmx_profiles@) + all_errors(self.cri_groups@) + all_errors(self.connectors@)
    }

    /// Performs validation checks on the object.
    pub fn validate(&self, result: &mut ValidationResult)
        ensures
            final(result)@ == old(result)@ + self.validation_errors(),
    {
        let ghost start = result@;
        let ghost all = all_color_spaces(self);
        let mut color_spaces: Vec<&ColorSpace> = Vec::new();
        let mut off: usize = 0;
        if let Some(c) = &self.color_space {
            color_spaces.push(c);
            off = 1;
        }
        let mut i: usize = 0;
        while i < self.additional_color_spaces.len()
            invariant
                i <= self.additional_color_spaces@.len(),
                off <= 1,
                all == all_color_spaces(self),
                all.len() == off + self.additional_color_spaces@.len(),
                color_spaces@.len() == off + i,
                forall|k: int| 0 <= k < color_spaces@.len() ==> *(#[trigger] color_spaces@[k]) == all[k],
            decreases self.additional_color_spaces@.len() - i,
        {
            color_spaces.push(&self.additional_color_spaces[i]);
            i = i + 1;
        }
        proof {
            lemma_refs_same(color_spaces@, all);
        }
        self.check_duplicates(&color_spaces, result);
        let ghost mid = result@;
        self.check_members(&color_spaces, result);
        assert(result@ =~= start + self.validation_errors());
    }

    fn check_duplicates(&self, color_spaces: &Vec<&ColorSpace>, result: &mut ValidationResult)
        requires
            present_names(color_spaces@) == present_names(all_color_spaces(self)),
        ensures
            final(result)@ == old(result)@ + self.duplicate_errors(),
    {
        check_duplicate_names(&self.emitters, ValidationObject::Emitter, result);
        check_duplicate_names(&self.filters, ValidationObject::Filter, result);
        check_duplicate_names(color_spaces, ValidationObject::ColorSpace, result);
        check_duplicate_names(&self.gamuts, ValidationObject::Gamut, result);
        check_duplicate_names(&self.dmx_profiles, ValidationObject::DmxProfile, result);
        check_duplicate_names(&self.connectors, ValidationObject::Connector, result);
        assert(result@ =~= old(result)@ + self.duplicate_errors());
    }

    fn check_members(&self, color_spaces: &Vec<&ColorSpace>, result: &mut ValidationResult)
        requires
            all_errors(color_spaces@) == all_errors(all_color_spaces(self)),
        ensures
            final(result)@ == old(result)@ + self.member_errors(),
    {
        validate_all(&self.emitters, result);
        validate_all(color_spaces, result);
        validate_all(&self.gamuts, result);
        validate_all(&self.dmx_profiles, result);
        validate_all(&self.cri_groups, result);
        validate_all(&self.connectors, result);
        assert(result@ =~= old(result)@ + self.member_errors());
    }
}

/// A list of references reads as the list of the objects they point to.
pub proof fn lemma_refs_same(refs: Seq<&ColorSpace>, items: Seq<ColorSpace>)
    requires
        refs.len() == items.len(),
        forall|k: int| 0 <= k < refs.len() ==> *(#[trigger] refs[k]) == items[k],
    ensures
        present_names(refs) == present_names(items),
        all_errors(refs) == all_errors(items),
    decreases items.len(),
{
    if items.len() > 0 {
        lemma_refs_same(refs.drop_last(), items.drop_last());
        assert(*refs[refs.len() - 1] == items[items.len() - 1]);
        let rm = refs.map_values(|x: &ColorSpace| <&ColorSpace as Check>::validation_errors(&x));
        let im = items.map_values(|x: ColorSpace| x.validation_errors());
        assert(rm.drop_last() =~= refs.drop_last().map_values(|x: &ColorSpace| <&ColorSpace as Check>::validation_errors(&x)));
        assert(im.drop_last() =~= items.drop_last().map_values(|x: ColorSpace| x.validation_errors()));
        assert(rm.last() == im.last());
        assert(concat_all(rm) == concat_all(rm.drop_last()) + rm.last());
        assert(concat_all(im) == concat_all(im.drop_last()) + im.last());
        assert(all_errors(refs.drop_last()) == concat_all(rm.drop_last()));
        assert(all_errors(items.drop_last()) == concat_all(im.drop_last()));
        assert(all_errors(refs) == concat_all(rm));
        assert(all_errors(items) == concat_all(im));
    } else {
        assert(refs.map_values(|x: &ColorSpace| <&ColorSpace as Check>::validation_errors(&x)) =~= Seq::<Seq<ValidationErrorView>>::empty());
        assert(items.map_values(|x: ColorSpace| x.validation_errors()) =~= Seq::<Seq<ValidationErrorView>>::empty());
    }
}

/// Describes an additive light source of the device, such as an LED or a tungsten lamp.
#[derive(Debug)]
pub struct Emitter {
    /// Unique name of the emitter.
    pub name: Option<Name>,
    /// The color or wave length of the emitter.
    pub optic: EmitterOptic,
    /// Optional manufacturer's part number of the diode.
    pub diode_part: Option<String>,
    /// Measurements relating requested output to the achieved intensity.
    pub measurements: Vec<Measurement>,
}

impl Named for Emitter {
    open spec fn name_view(&self) -> Option<Seq<char>> {
        opt_name(self.name)
    }

    fn name_ref(&self) -> (r: Option<&Name>) {
        self.name.as_ref()
    }
}

impl Check for Emitter {
    /// A missing name, then a measurement without luminous intensity.
    open spec fn validation_errors(&self) -> Seq<ValidationErrorView> {
        missing_name_errors(self.name, ValidationObject::Emitter) + if exists|i: int|
            0 <= i < self.measurements@.len() && (#[trigger] self.measurements@[i]).luminous_intensity is None {
            seq![error_view(ValidationObject::Emitter, opt_name(self.name), ValidationErrorTypeView::MissingLuminousIntensity)]
        } else {
            Seq::<ValidationErrorView>::empty()
        }
    }

    fn validate(&self, result: &mut ValidationResult) {
        check_missing_name(&self.name, ValidationObject::Emitter, result);
        let ghost mid = result@;
        let mut missing = false;
        let mut i: usize = 0;
        while i < self.measurements.len()
            invariant
                i <= self.measurements@.len(),
                missing == exists|k: int| 0 <= k < i && (#[trigger] self.measurements@[k]).luminous_intensity is None,
            decreases self.measurements@.len() - i,
        {
            if self.measurements[i].luminous_intensity.is_none() {
                missing = true;
            }
            i = i + 1;
        }
        if missing {
            result.push(ValidationError::new(
                ValidationObject::Emitter,
                crate::validation::name_string(&self.name),
                ValidationErrorType::MissingLuminousIntensity,
            ));
        }
        assert(result@ =~= old(result)@ + self.validation_errors());
    }
}

/// The color of an [Emitter]: a color point with an optional dominant wave length, or a
/// dominant wave length alone. Numbers are held as bit patterns of IEEE 754 doubles.
#[derive(Debug, Clone, Copy)]
#[allow(inconsistent_fields)]
pub enum EmitterOptic {
    /// Color point of the emitter.
    Color {
        /// Approximate absolute color point.
        color: ColorCie,
        /// Dominant wave length of a LED, in nm.
        dominant_wave_length: Option<u64>,
    },
    /// Dominant wave length of the emitter, in nm.
    WaveLength {
        /// Dominant wave length of a LED, in nm.
        dominant_wave_length: u64,
    },
}

/// Describes a subtractive filter of the device.
#[derive(Debug)]
pub struct Filter {
    /// Unique name of the filter.
    pub name: Option<Name>,
    /// Approximate absolute color point of the filter.
    pub color: ColorCie,
    /// Measurements relating requested output to the achieved transmission.
    pub measurements: Vec<Measurement>,
}

impl Named for Filter {
    open spec fn name_view(&self) -> Option<Seq<char>> {
        opt_name(self.name)
    }

    fn name_ref(&self) -> (r: Option<&Name>) {
        self.name.as_ref()
    }
}

impl Check for Filter {
    /// A missing name, then a measurement without transmission.
    open spec fn validation_errors(&self) -> Seq<ValidationErrorView> {
        missing_name_errors(self.name, ValidationObject::Filter) + if exists|i: int|
            0 <= i < self.measurements@.len() && (#[trigger] self.measurements@[i]).transmission is None {
            seq![error_view(ValidationObject::Filter, opt_name(self.name), ValidationErrorTypeView::MissingTransmission)]
        } else {
            Seq::<ValidationErrorView>::empty()
        }
    }

    fn validate(&self, result: &mut ValidationResult) {
        check_missing_name(&self.name, ValidationObject::Filter, result);
        let mut missing = false;
        let mut i: usize = 0;
        while i < self.measurements.len()
            invariant
                i <= self.measurements@.len(),
                missing == exists|k: int| 0 <= k < i && (#[trigger] self.measurements@[k]).transmission is None,
            decreases self.measurements@.len() - i,
        {
            if self.measurements[i].transmission.is_none() {
                missing = true;
            }
            i = i + 1;
        }
        if missing {
            result.push(ValidationError::new(
                ValidationObject::Filter,
                crate::validation::name_string(&self.name),
                ValidationErrorType::MissingTransmission,
            ));
        }
        assert(result@ =~= old(result)@ + self.validation_errors());
    }
}

/// Relation between requested output and achieved intensity or transmission. Numbers are held
/// as bit patterns of IEEE 754 doubles.
#[derive(Debug)]
pub struct Measurement {
    /// Physical value of the measurement.
    pub physical: u64,
    /// Luminous intensity, for emitters.
    pub luminous_intensity: Option<u64>,
    /// Transmission, for filters.
    pub transmission: Option<u64>,
    /// Interpolation scheme from the previous measurement.
    pub interpolation_to: Interpolation,
    /// Spectral measurement points.
    pub points: Vec<MeasurementPoint>,
}

/// A point of a spectral measurement. Numbers are held as bit patterns of IEEE 754 doubles.
#[derive(Debug, Clone, Copy)]
pub struct MeasurementPoint {
    /// Center wave length of the measurement, in nm.
    pub wave_length: u64,
    /// Lighting energy.
    pub energy: u64,
}

/// Interpolation scheme between measurements.
#[derive(Debug, Clone, Copy, PartialEq, Eq, Hash, Structural)]
pub enum Interpolation {
    /// Step.
    Step,
    /// Logarithmic.
    Log,
    /// Linear (the default).
    Linear,
}

/// A color space of the device.
#[derive(Debug)]
pub struct ColorSpace {
    /// Unique name of the color space.
    pub name: Option<Name>,
    /// The definition of the color space.
    pub mode: ColorSpaceMode,
}

impl Named for ColorSpace {
    open spec fn name_view(&self) -> Option<Seq<char>> {
        opt_name(self.name)
    }

    fn name_ref(&self) -> (r: Option<&Name>) {
        self.name.as_ref()
    }
}

impl Check for ColorSpace {
    /// A missing name.
    open spec fn validation_errors(&self) -> Seq<ValidationErrorView> {
        missing_name_errors(self.name, ValidationObject::ColorSpace)
    }

    fn validate(&self, result: &mut ValidationResult) {
        check_missing_name(&self.name, ValidationObject::ColorSpace, result);
    }
}

/// The definition of a color space.
#[derive(Debug, Clone, Copy)]
pub enum ColorSpaceMode {
    /// A custom color space given by its primaries and white point.
    Custom {
        /// Red primary.
        red: ColorCie,
        /// Green primary.
        green: ColorCie,
        /// Blue primary.
        blue: ColorCie,
        /// White point.
        white_point: ColorCie,
    },
    /// The ProPhoto color space.
    ProPhoto,
    /// The ANSI color space.
    Ansi,
    /// The sRGB color space (the default).
    Srgb,
}

/// A color gamut of the device.
#[derive(Debug)]
pub struct Gamut {
    /// Unique name of the gamut.
    pub name: Option<Name>,
    /// The corners of the gamut polygon.
    pub points: Vec<ColorCie>,
}

impl Named for Gamut {
    open spec fn name_view(&self) -> Option<Seq<char>> {
        opt_name(self.name)
    }

    fn name_ref(&self) -> (r: Option<&Name>) {
        self.name.as_ref()
    }
}

impl Check for Gamut {
    /// A missing name, then a polygon of fewer than three points.
    open spec fn validation_errors(&self) -> Seq<ValidationErrorView> {
        missing_name_errors(self.name, ValidationObject::Gamut) + if self.points@.len() < 3 {
            seq![error_view(ValidationObject::Gamut, opt_name(self.name), ValidationErrorTypeView::EmptyPolygon)]
        } else {
            Seq::<ValidationErrorView>::empty()
        }
    }

    fn validate(&self, result: &mut ValidationResult) {
        check_missing_name(&self.name, ValidationObject::Gamut, result);
        if self.points.len() < 3 {
            result.push(ValidationError::new(
                ValidationObject::Gamut,
                crate::validation::name_string(&self.name),
                ValidationErrorType::EmptyPolygon,
            ));
        }
        assert(result@ =~= old(result)@ + self.validation_errors());
    }
}

/// A gamut is a polygon of at least three points: its validation reports it empty exactly when
/// it has fewer than three points, and a named gamut of three or more points validates without
/// problems.
pub proof fn lemma_gamut_polygon(g: Gamut)
    ensures
        g.validation_errors().contains(
            error_view(ValidationObject::Gamut, opt_name(g.name), ValidationErrorTypeView::EmptyPolygon),
        ) <==> g.points@.len() < 3,
        g.name is Some && g.points@.len() >= 3 ==> g.validation_errors().len() == 0,
{
    let e = error_view(ValidationObject::Gamut, opt_name(g.name), ValidationErrorTypeView::EmptyPolygon);
    let errs = g.validation_errors();
    if g.points@.len() < 3 {
        assert(errs[errs.len() - 1] == e);
    } else {
        assert(errs =~= missing_name_errors(g.name, ValidationObject::Gamut));
        assert(!errs.contains(e)) by {
            if errs.contains(e) {
                let i = choose|i: int| 0 <= i < errs.len() && errs[i] == e;
                assert(errs[i].error_type is MissingName);
            }
        }
    }
}

/// A DMX profile of the device.
#[derive(Debug)]
pub struct DmxProfile {
    /// Unique name of the profile.
    pub name: Option<Name>,
    /// The points of the profile.
    pub points: Vec<Point>,
}

impl Named for DmxProfile {
    open spec fn name_view(&self) -> Option<Seq<char>> {
        opt_name(self.name)
    }

    fn name_ref(&self) -> (r: Option<&Name>) {
        self.name.as_ref()
    }
}

/// The DMX percentages of `points`, in order.
pub open spec fn dmx_percentages(points: Seq<Point>) -> Seq<u64> {
    points.map_values(|p: Point| p.dmx_percentage)
}

impl Check for DmxProfile {
    /// A missing name, an empty profile, then the first DMX percentage that occurs twice.
    open spec fn validation_errors(&self) -> Seq<ValidationErrorView> {
        missing_name_errors(self.name, ValidationObject::DmxProfile) + (if self.points@.len() == 0 {
            seq![error_view(ValidationObject::DmxProfile, opt_name(self.name), ValidationErrorTypeView::EmptyProfile)]
        } else {
            Seq::<ValidationErrorView>::empty()
        }) + match first_float_duplicate(dmx_percentages(self.points@)) {
            Some(p) => seq![error_view(ValidationObject::DmxProfile, opt_name(self.name), ValidationErrorTypeView::DuplicatePoint(p))],
            None => Seq::<ValidationErrorView>::empty(),
        }
    }

    fn validate(&self, result: &mut ValidationResult) {
        check_missing_name(&self.name, ValidationObject::DmxProfile, result);
        let ghost mid = result@;
        if self.points.len() == 0 {
            result.push(ValidationError::new(
                ValidationObject::DmxProfile,
                crate::validation::name_string(&self.name),
                ValidationErrorType::EmptyProfile,
            ));
        }
        let ghost mid2 = result@;
        match find_float_duplicate(&self.points) {
            Some(p) => {
                result.push(ValidationError::new(
                    ValidationObject::DmxProfile,
                    crate::validation::name_string(&self.name),
                    ValidationErrorType::DuplicatePoint(p),
                ));
            },
            None => {},
        }
        assert(result@ =~= old(result)@ + self.validation_errors());
    }
}

fn find_float_duplicate(points: &Vec<Point>) -> (r: Option<u64>)
    ensures
        r == first_float_duplicate(dmx_percentages(points@)),
{
    let ghost all = dmx_percentages(points@);
    let mut i: usize = 0;
    while i < points.len()
        invariant
            i <= points@.len(),
            all == dmx_percentages(points@),
            first_float_duplicate(all.subrange(0, i as int)) is None,
        decreases points@.len() - i,
    {
        let x = points[i].dmx_percentage;
        let ghost pre = all.subrange(0, i as int);
        let ghost next = all.subrange(0, i + 1);
        assert(next.drop_last() =~= pre);
        assert(next.last() == x);
        let mut j: usize = 0;
        let mut hit = false;
        while j < i
            invariant
                j <= i < points@.len(),
                all == dmx_percentages(points@),
                x == all[i as int],
                hit == exists|k: int| 0 <= k < j && float_bits_eq(#[trigger] all[k], x),
            decreases i - j,
        {
            assert(all[j as int] == points@[j as int].dmx_percentage);
            if float_bits_equal(points[j].dmx_percentage, x) {
                hit = true;
            }
            j = j + 1;
        }
        if hit {
            proof {
                let k = choose|k: int| 0 <= k < j && float_bits_eq(#[trigger] all[k], x);
                assert(next[k] == all[k]);
                assert(first_float_duplicate(next) == Some(x));
                lemma_first_float_duplicate_extend(next, all.subrange(i + 1, all.len() as int));
                assert(next + all.subrange(i + 1, all.len() as int) =~= all);
            }
            return Some(x);
        }
        proof {
            assert forall|k: int| 0 <= k < next.len() - 1 implies !float_bits_eq(#[trigger] next[k], next.last()) by {
                assert(next[k] == all[k]);
            }
        }
        i = i + 1;
    }
    assert(all.subrange(0, i as int) =~= all);
    None
}

proof fn lemma_first_float_duplicate_extend(s: Seq<u64>, t: Seq<u64>)
    requires
        first_float_duplicate(s) is Some,
    ensures
        first_float_duplicate(s + t) == first_float_duplicate(s),
    decreases t.len(),
{
    if t.len() == 0 {
        assert(s + t =~= s);
    } else {
        lemma_first_float_duplicate_extend(s, t.drop_last());
        assert((s + t).drop_last() =~= s + t.drop_last());
    }
}

/// A point of a DMX profile. Numbers are held as bit patterns of IEEE 754 doubles.
#[derive(Debug, Clone, Copy)]
pub struct Point {
    /// DMX percentage of the point.
    pub dmx_percentage: u64,
    /// Cubic function coefficient for x^0.
    pub cfc0: u64,
    /// Cubic function coefficient for x.
    pub cfc1: u64,
    /// Cubic function coefficient for x^2.
    pub cfc2: u64,
    /// Cubic function coefficient for x^3.
    pub cfc3: u64,
}

/// Color rendering indices of the device at one color temperature.
#[derive(Debug)]
pub struct CriGroup {
    /// Color temperature, as the bit pattern of an IEEE 754 double.
    pub color_temperature: u64,
    /// The color rendering indices.
    pub cris: Vec<Cri>,
}

/// The color samples of `cris`, in order.
pub open spec fn cri_samples(cris: Seq<Cri>) -> Seq<Ces> {
    cris.map_values(|c: Cri| c.ces)
}

impl Check for CriGroup {
    /// The first color sample that occurs twice.
    open spec fn validation_errors(&self) -> Seq<ValidationErrorView> {
        match first_duplicate(cri_samples(self.cris@)) {
            Some(c) => seq![error_view(ValidationObject::CriGroup, None, ValidationErrorTypeView::DuplicateCriSample(c@))],
            None => Seq::<ValidationErrorView>::empty(),
        }
    }

    fn validate(&self, result: &mut ValidationResult) {
        let ghost all = cri_samples(self.cris@);
        let mut i: usize = 0;
        while i < self.cris.len()
            invariant
                i <= self.cris@.len(),
                all == cri_samples(self.cris@),
                first_duplicate(all.subrange(0, i as int)) is None,
                result@ == old(result)@,
            decreases self.cris@.len() - i,
        {
            let x = self.cris[i].ces;
            let ghost pre = all.subrange(0, i as int);
            let ghost next = all.subrange(0, i + 1);
            assert(next.drop_last() =~= pre);
            assert(next.last() == x);
            let mut j: usize = 0;
            let mut hit = false;
            while j < i
                invariant
                    j <= i < self.cris@.len(),
                    all == cri_samples(self.cris@),
                    x == all[i as int],
                    hit == exists|k: int| 0 <= k < j && #[trigger] all[k] == x,
                decreases i - j,
            {
                assert(all[j as int] == self.cris@[j as int].ces);
                if self.cris[j].ces == x {
                    hit = true;
                }
                j = j + 1;
            }
            if hit {
                proof {
                    let k = choose|k: int| 0 <= k < j && #[trigger] all[k] == x;
                    assert(pre[k] == all[k]);
                    assert(pre.contains(x));
                    assert(first_duplicate(next) == Some(x));
                    crate::validation::lemma_first_duplicate_extend(next, all.subrange(i + 1, all.len() as int));
                    assert(next + all.subrange(i + 1, all.len() as int) =~= all);
                }
                result.push(ValidationError::new(
                    ValidationObject::CriGroup,
                    None,
                    ValidationErrorType::DuplicateCriSample(x),
                ));
                assert(result@ =~= old(result)@ + self.validation_errors());
                return;
            }
            proof {
                assert(!pre.contains(x)) by {
                    if pre.contains(x) {
                        let k = choose|k: int| 0 <= k < pre.len() && pre[k] == x;
                        assert(all[k] == x);
                    }
                }
            }
            i = i + 1;
        }
        assert(all.subrange(0, i as int) =~= all);
        assert(result@ =~= old(result)@ + self.validation_errors());
    }
}

/// A color rendering index for one color sample.
#[derive(Debug, Clone, Copy)]
pub struct Cri {
    /// The color sample.
    pub ces: Ces,
    /// The color rendering index for the sample (100 by default).
    pub color_rendering_index: u8,
}

/// The default color rendering index.
pub fn default_color_rendering_index() -> (r: u8)
    ensures
        r == 100,
{
    100
}

/// A color sample number of a color rendering index, in the range `1..=99`.
///
/// Text format: `CES01`..`CES99`.
#[derive(Debug, Clone, Copy, PartialEq, Eq, Hash, Structural)]
pub struct Ces(u8);

impl View for Ces {
    type V = u8;

    closed spec fn view(&self) -> u8 {
        self.0
    }
}

/// The text form of a color sample: `CES` and the number in two digits.
pub open spec fn ces_text(n: u8) -> Seq<char> {
    seq!['C', 'E', 'S'] + if n < 10 { seq!['0'] + decimal(n as nat) } else { decimal(n as nat) }
}

/// What [Ces::parse] accepts: `CES` followed by a number in `1..=99` as the standard library
/// reads a `u8`.
pub open spec fn ces_from_text(s: Seq<char>) -> Option<u8> {
    if s.len() >= 3 && s.subrange(0, 3) == seq!['C', 'E', 'S'] {
        match parse_unsigned(s.subrange(3, s.len() as int), 255) {
            Some(n) => if 1 <= n <= 99 { Some(n as u8) } else { None },
            None => None,
        }
    } else {
        None
    }
}

/// A color sample printed as text and read back is the same sample.
pub proof fn lemma_ces_text_roundtrip(n: u8)
    requires
        1 <= n <= 99,
    ensures
        ces_from_text(ces_text(n)) == Some(n),
{
    let s = ces_text(n);
    let rest = if n < 10 { seq!['0'] + decimal(n as nat) } else { decimal(n as nat) };
    assert(s.subrange(0, 3) =~= seq!['C', 'E', 'S']);
    assert(s.subrange(3, s.len() as int) =~= rest);
    crate::text::lemma_decimal(n as nat);
    if n < 10 {
        assert(decimal(n as nat) == seq![crate::text::digit_char(n as nat)]);
        crate::text::lemma_digit_char(n as nat);
        assert(rest =~= seq!['0', crate::text::digit_char(n as nat)]);
        assert(rest.drop_last() =~= seq!['0']);
        assert(seq!['0'].drop_last() =~= Seq::<char>::empty());
        assert(seq!['0'].last() == '0');
        assert(crate::text::digits_value(Seq::<char>::empty()) == 0);
        assert(crate::text::digit_value('0') == 0);
        assert(crate::text::digits_value(seq!['0']) == 0);
        assert(crate::text::digits_value(rest) == n);
        assert(crate::text::all_digits(rest));
    } else {
        crate::text::lemma_parse_unsigned_decimal(n as nat, 255);
    }
}

impl Ces {
    #[verifier::type_invariant]
    spec fn in_range(self) -> bool {
        1 <= self.0 <= 99
    }

    /// Constructs a color sample number; fails outside `1..=99`.
    pub fn new(value: u8) -> (r: Option<Ces>)
        ensures
            1 <= value <= 99 ==> (r matches Some(c) && c@ == value),
            !(1 <= value <= 99) ==> r is None,
    {
        if value >= 100 {
            return None;
        }
        if value == 0 {
            None
        } else {
            Some(Ces(value))
        }
    }

    /// The sample number, in `1..=99`.
    pub fn get(self) -> (r: u8)
        ensures
            r == self@,
            1 <= r <= 99,
    {
        proof {
            use_type_invariant(self);
        }
        self.0
    }

    /// Reads a color sample from its text form.
    pub fn parse(text: &str) -> (r: Option<Ces>)
        ensures
            match ces_from_text(text@) {
                Some(n) => r matches Some(c) && c@ == n,
                None => r is None,
            },
    {
        let v = chars_of(text);
        if v.len() < 3 || v[0] != 'C' || v[1] != 'E' || v[2] != 'S' {
            proof {
                if v@.len() >= 3 {
                    assert(v@.subrange(0, 3)[0] == v@[0]);
                    assert(v@.subrange(0, 3)[1] == v@[1]);
                    assert(v@.subrange(0, 3)[2] == v@[2]);
                }
            }
            return None;
        }
        assert(v@.subrange(0, 3) =~= seq!['C', 'E', 'S']);
        match parse_unsigned_range(&v, 3, v.len(), 255) {
            Some(n) => Ces::new(n as u8),
            None => None,
        }
    }

    /// The text form `CESnn`.
    pub fn to_text(self) -> (r: String)
        ensures
            r@ == ces_text(self@),
    {
        let mut out: Vec<char> = Vec::new();
        out.push('C');
        out.push('E');
        out.push('S');
        if self.0 < 10 {
            out.push('0');
        }
        push_decimal(&mut out, self.0 as u64);
        assert(out@ =~= ces_text(self@));
        string_from_chars(&out)
    }
}

/// A physical connector of the device.
#[derive(Debug)]
pub struct Connector {
    /// Unique name of the connector.
    pub name: Option<Name>,
    /// The type of the connector.
    pub type_: Name,
    /// The DMX break the connector belongs to.
    pub dmx_break: Option<u32>,
    /// Gender of the connector: -1 male, 0 unknown, 1 female.
    pub gender: i32,
    /// Length of the connector's wire in meters, as the bit pattern of an IEEE 754 double.
    pub length: u64,
}

impl Named for Connector {
    open spec fn name_view(&self) -> Option<Seq<char>> {
        opt_name(self.name)
    }

    fn name_ref(&self) -> (r: Option<&Name>) {
        self.name.as_ref()
    }
}

impl Check for Connector {
    /// A missing name.
    open spec fn validation_errors(&self) -> Seq<ValidationErrorView> {
        missing_name_errors(self.name, ValidationObject::Connector)
    }

    fn validate(&self, result: &mut ValidationResult) {
        check_missing_name(&self.name, ValidationObject::Connector, result);
    }
}

/// Physical properties of the device. Numbers are held as bit patterns of IEEE 754 doubles.
#[derive(Debug, Clone, Copy)]
pub struct Properties {
    /// Operating temperature range.
    pub operating_temperature: Option<OperatingTemperature>,
    /// Weight of the device in kilograms.
    pub weight: Option<u64>,
    /// Height of the legs in meters.
    pub leg_height: Option<u64>,
}

/// Operating temperature range in degrees Celsius, as bit patterns of IEEE 754 doubles.
#[derive(Debug, Clone, Copy)]
pub struct OperatingTemperature {
    /// Lowest temperature (0 by default).
    pub low: u64,
    /// Highest temperature (40 by default).
    pub high: u64,
}

} // verus!
