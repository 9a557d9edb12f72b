//! The object model of a GDTF description: the fixture types it describes and the version of the
//! format it is written in.

use vstd::prelude::*;
use crate::fixture_type::{modes_named, FixtureType};
use crate::resource::ResourceMap;
use crate::validation::{
    check_duplicate_names, duplicate_name_errors, error_view, find_by_name, first_named,
    present_names, ValidationError, ValidationErrorType, ValidationErrorTypeView,
    ValidationErrorView, ValidationObject, ValidationResult,
};
use crate::values::Version;

verus! {

/// The description of one or more fixture types: the content of a `description.xml` file.
#[derive(Debug)]
pub struct Description {
    /// The version of the format the description is written in.
    pub data_version: Version,
    /// The fixture types described.
    pub fixture_types: Vec<FixtureType>,
}

/// The problems the checks of `fixture_types` record, first fixture type first.
pub open spec fn fixture_type_errors(fixture_types: Seq<FixtureType>, resources: ResourceMap) -> Seq<ValidationErrorView>
    decreases fixture_types.len(),
{
    if fixture_types.len() == 0 {
        Seq::<ValidationErrorView>::empty()
    } else {
        fixture_type_errors(fixture_types.drop_last(), resources) + fixture_types.last().validation_errors(resources)
    }
}

/// Every logical channel of every DMX mode of every one of `fixture_types` links an attribute.
pub open spec fn fixture_types_named(fixture_types: Seq<FixtureType>) -> bool {
    forall|i: int| 0 <= i < fixture_types.len() ==> modes_named(#[trigger] fixture_types[i])
}

impl Description {
    /// Creates an empty description in the latest supported version, 1.2.
    pub fn new() -> (r: Description)
        ensures
            r.data_version == (Version { major: 1, minor: 2 }),
            r.fixture_types@.len() == 0,
    {
        Description { data_version: Version { major: 1, minor: 2 }, fixture_types: Vec::new() }
    }

    /// The same as [Description::new].
    pub fn default() -> (r: Description)
        ensures
            r.data_version == (Version { major: 1, minor: 2 }),
            r.fixture_types@.len() == 0,
    {
        Self::new()
    }

    /// Looks up a [FixtureType] by name.
    pub fn fixture_type(&self, name: &str) -> (r: Option<&FixtureType>)
        ensures
            match first_named(self.fixture_types@, name@) {
                Some(i) => r == Some(&self.fixture_types@[i]),
                None => r is None,
            },
    {
        find_by_name(&self.fixture_types, name)
    }

    /// The problems [validate](Self::validate) records: an unsupported version, the first
    /// fixture type name that occurs twice, then the problems of each fixture type.
    pub open spec fn validation_errors(&self, resources: ResourceMap) -> Seq<ValidationErrorView> {
        (if self.data_version.major == 1 && self.data_version.minor <= 2 {
            Seq::<ValidationErrorView>::empty()
        } else {
            seq![error_view(ValidationObject::Description, None, ValidationErrorTypeView::InvalidVersion(self.data_version))]
        }) + duplicate_name_errors(present_names(self.fixture_types@), ValidationObject::FixtureType)
            + fixture_type_errors(self.fixture_types@, resources)
    }

    /// Performs validation checks on the description, looking resources up in `resource_map`.
    pub fn validate(&self, resource_map: &ResourceMap, result: &mut ValidationResult)
        requires
            fixture_types_named(self.fixture_types@),
        ensures
            final(result)@ == old(result)@ + self.validation_errors(*resource_map),
    {
        if !self.data_version.is_supported() {
            result.push(ValidationError::new(
                ValidationObject::Description,
                None,
                ValidationErrorType::InvalidVersion(self.data_version),
            ));
        }
        check_duplicate_names(&self.fixture_types, ValidationObject::FixtureType, result);
        let ghost start = result@;
        let mut i: usize = 0;
        while i < self.fixture_types.len()
            invariant
                i <= self.fixture_types@.len(),
                fixture_types_named(self.fixture_types@),
                result@ == start + fixture_type_errors(self.fixture_types@.subrange(0, i as int), *resource_map),
            decreases self.fixture_types@.len() - i,
        {
            assert(modes_named(self.fixture_types@[i as int]));
            self.fixture_types[i].validate(resource_map, result);
            proof {
                assert(self.fixture_types@.subrange(0, i + 1).drop_last() =~= self.fixture_types@.subrange(0, i as int));
            }
            i = i + 1;
        }
        assert(self.fixture_types@.subrange(0, i as int) =~= self.fixture_types@);
        assert(result@ =~= old(result)@ + self.validation_errors(*resource_map));
    }
}

/// A description that validates without problems is written in a supported version, and no two
/// of its fixture types share a name.
pub proof fn lemma_valid_description(description: Description, resources: ResourceMap)
    requires
        description.validation_errors(resources).len() == 0,
    ensures
        description.data_version.major == 1 && description.data_version.minor <= 2,
        crate::validation::first_duplicate(present_names(description.fixture_types@)) is None,
{
}

/// The version of a description matters to its validation only through whether it is
/// supported: two descriptions of the same fixture types, both written in a supported version
/// (major version 1, minor version at most 2), record the same problems.
pub proof fn lemma_supported_versions_validate_alike(a: Description, b: Description, resources: ResourceMap)
    requires
        a.fixture_types@ == b.fixture_types@,
        a.data_version.major == 1 && a.data_version.minor <= 2,
        b.data_version.major == 1 && b.data_version.minor <= 2,
    ensures
        a.validation_errors(resources) == b.validation_errors(resources),
{
}

/// A description written in an unsupported version records, before anything else, exactly one
/// more problem than the same fixture types written in a supported version: that its version
/// is not supported.
pub proof fn lemma_unsupported_version_reported(a: Description, b: Description, resources: ResourceMap)
    requires
        a.fixture_types@ == b.fixture_types@,
        !(a.data_version.major == 1 && a.data_version.minor <= 2),
        b.data_version.major == 1 && b.data_version.minor <= 2,
    ensures
        a.validation_errors(resources) == seq![
            error_view(ValidationObject::Description, None, ValidationErrorTypeView::InvalidVersion(a.data_version)),
        ] + b.validation_errors(resources),
{
    assert(a.validation_errors(resources) =~= seq![
        error_view(ValidationObject::Description, None, ValidationErrorTypeView::InvalidVersion(a.data_version)),
    ] + b.validation_errors(resources));
}

/// A description without fixture types validates without problems exactly when its version is
/// supported (1.0, 1.1 or 1.2); otherwise its only problem is its version.
pub proof fn lemma_empty_description_validation(d: Description, resources: ResourceMap)
    requires
        d.fixture_types@.len() == 0,
    ensures
        (d.validation_errors(resources).len() == 0) <==> (d.data_version.major == 1
            && d.data_version.minor <= 2),
        !(d.data_version.major == 1 && d.data_version.minor <= 2) ==> d.validation_errors(resources)
            == seq![error_view(ValidationObject::Description, None, ValidationErrorTypeView::InvalidVersion(d.data_version))],
{
    assert(present_names(d.fixture_types@) =~= Seq::<Seq<char>>::empty());
    assert(crate::validation::first_duplicate(Seq::<Seq<char>>::empty()) is None);
    assert(fixture_type_errors(d.fixture_types@, resources) =~= Seq::<ValidationErrorView>::empty());
    assert(d.validation_errors(resources) =~= (if d.data_version.major == 1 && d.data_version.minor <= 2 {
        Seq::<ValidationErrorView>::empty()
    } else {
        seq![error_view(ValidationObject::Description, None, ValidationErrorTypeView::InvalidVersion(d.data_version))]
    }));
}

} // verus!
