//! Results of the consistency checks performed on a description.

use vstd::prelude::*;
use crate::values::{Name, Node, Version};
use crate::physical_descriptions::Ces;

verus! {

/// The kind of object a [ValidationError] is about.
#[derive(Debug, Clone, Copy, PartialEq, Eq, Hash, Structural)]
pub enum ValidationObject {
    /// An attribute.
    Attribute,
    /// A channel function.
    ChannelFunction,
    /// A channel set.
    ChannelSet,
    /// A color space.
    ColorSpace,
    /// A connector.
    Connector,
    /// A group of color rendering indices.
    CriGroup,
    /// The description as a whole.
    Description,
    /// A DMX channel.
    DmxChannel,
    /// A DMX mode.
    DmxMode,
    /// A DMX profile.
    DmxProfile,
    /// An emitter.
    Emitter,
    /// A filter.
    Filter,
    /// A fixture type.
    FixtureType,
    /// A macro.
    FtMacro,
    /// A gamut.
    Gamut,
    /// A geometry.
    Geometry,
    /// A logical channel.
    LogicalChannel,
    /// The mode master of a channel function.
    ModeMaster,
    /// A model.
    Model,
    /// A relation.
    Relation,
    /// A sub channel set.
    SubChannelSet,
    /// A sub physical unit.
    SubPhysicalUnit,
    /// A wheel.
    Wheel,
    /// A wheel slot.
    WheelSlot,
}

/// What is wrong with the object a [ValidationError] is about.
#[derive(Debug)]
pub enum ValidationErrorType {
    /// The object has no name.
    MissingName,
    /// Two objects of the same kind share this name.
    DuplicateName,
    /// A link to an object of the given kind leads nowhere.
    LinkNotFound(ValidationObject, Node),
    /// The version of the description is not supported.
    InvalidVersion(Version),
    /// A measurement of an emitter has no luminous intensity.
    MissingLuminousIntensity,
    /// A measurement of a filter has no transmission.
    MissingTransmission,
    /// A gamut has fewer than three points.
    EmptyPolygon,
    /// A DMX profile has no points.
    EmptyProfile,
    /// Two points of a DMX profile share this DMX percentage (the bit pattern of the number).
    DuplicatePoint(u64),
    /// Two color rendering indices of a group share this color sample.
    DuplicateCriSample(Ces),
    /// A media resource with this name is not in the file.
    MediaNotFound(String),
    /// A thumbnail resource with this name is not in the file.
    ThumbnailNotFound(String),
}

/// The abstract value of a [ValidationErrorType]: texts as character sequences.
pub ghost enum ValidationErrorTypeView {
    MissingName,
    DuplicateName,
    LinkNotFound(ValidationObject, Seq<Seq<char>>),
    InvalidVersion(Version),
    MissingLuminousIntensity,
    MissingTransmission,
    EmptyPolygon,
    EmptyProfile,
    DuplicatePoint(u64),
    DuplicateCriSample(u8),
    MediaNotFound(Seq<char>),
    ThumbnailNotFound(Seq<char>),
}

impl View for ValidationErrorType {
    type V = ValidationErrorTypeView;

    open spec fn view(&self) -> ValidationErrorTypeView {
        match self {
            ValidationErrorType::MissingName => ValidationErrorTypeView::MissingName,
            ValidationErrorType::DuplicateName => ValidationErrorTypeView::DuplicateName,
            ValidationErrorType::LinkNotFound(o, n) => ValidationErrorTypeView::LinkNotFound(*o, n@),
            ValidationErrorType::InvalidVersion(v) => ValidationErrorTypeView::InvalidVersion(*v),
            ValidationErrorType::MissingLuminousIntensity => ValidationErrorTypeView::MissingLuminousIntensity,
            ValidationErrorType::MissingTransmission => ValidationErrorTypeView::MissingTransmission,
            ValidationErrorType::EmptyPolygon => ValidationErrorTypeView::EmptyPolygon,
            ValidationErrorType::EmptyProfile => ValidationErrorTypeView::EmptyProfile,
            ValidationErrorType::DuplicatePoint(p) => ValidationErrorTypeView::DuplicatePoint(*p),
            ValidationErrorType::DuplicateCriSample(c) => ValidationErrorTypeView::DuplicateCriSample(c@),
            ValidationErrorType::MediaNotFound(s) => ValidationErrorTypeView::MediaNotFound(s@),
            ValidationErrorType::ThumbnailNotFound(s) => ValidationErrorTypeView::ThumbnailNotFound(s@),
        }
    }
}

/// A single problem found while checking a description.
#[derive(Debug)]
pub struct ValidationError {
    /// The kind of object the problem is about.
    pub object: ValidationObject,
    /// The name of the object, when it has one.
    pub name: Option<String>,
    /// What is wrong.
    pub error_type: ValidationErrorType,
}

/// The abstract value of a [ValidationError].
pub ghost struct ValidationErrorView {
    pub object: ValidationObject,
    pub name: Option<Seq<char>>,
    pub error_type: ValidationErrorTypeView,
}

/// The error about `object` named `name` with problem `error_type`, as an abstract value.
pub open spec fn error_view(
    object: ValidationObject,
    name: Option<Seq<char>>,
    error_type: ValidationErrorTypeView,
) -> ValidationErrorView {
    ValidationErrorView { object, name, error_type }
}

impl View for ValidationError {
    type V = ValidationErrorView;

    open spec fn view(&self) -> ValidationErrorView {
        ValidationErrorView {
            object: self.object,
            name: match self.name {
                Some(s) => Some(s@),
                None => None,
            },
            error_type: self.error_type@,
        }
    }
}

impl ValidationError {
    /// Constructs an error about `object` named `name`.
    pub fn new(object: ValidationObject, name: Option<String>, error_type: ValidationErrorType) -> (r: ValidationError)
        ensures
            r.object == object,
            r.name == name,
            r.error_type == error_type,
    {
        ValidationError { object, name, error_type }
    }
}

/// The list of problems found while checking a description.
#[derive(Debug)]
pub struct ValidationResult {
    /// All problems found, in the order the checks found them.
    pub errors: Vec<ValidationError>,
}

impl View for ValidationResult {
    type V = Seq<ValidationErrorView>;

    open spec fn view(&self) -> Seq<ValidationErrorView> {
        self.errors@.map_values(|e: ValidationError| e@)
    }
}

impl ValidationResult {
    /// Constructs an empty result.
    pub fn new() -> (r: ValidationResult)
        ensures
            r@ == Seq::<ValidationErrorView>::empty(),
    {
        let r = ValidationResult { errors: Vec::new() };
        assert(r@ =~= Seq::<ValidationErrorView>::empty());
        r
    }

    /// Records one more problem.
    pub fn push(&mut self, error: ValidationError)
        ensures
            final(self)@ == old(self)@.push(error@),
    {
        self.errors.push(error);
        assert(self.errors@.map_values(|e: ValidationError| e@) =~= old(self).errors@.map_values(
            |e: ValidationError| e@,
        ).push(error@));
    }

    /// Returns whether any problem was found.
    pub fn is_empty(&self) -> (r: bool)
        ensures
            r == (self@.len() == 0),
    {
        self.errors.len() == 0
    }
}

/// The name of an object that may lack one, as an abstract value.
pub open spec fn opt_name(n: Option<Name>) -> Option<Seq<char>> {
    match n {
        Some(x) => Some(x@),
        None => None,
    }
}

/// The owned text of an optional name.
pub fn name_string(n: &Option<Name>) -> (r: Option<String>)
    ensures
        match r {
            Some(s) => opt_name(*n) == Some(s@),
            None => n.is_none(),
        },
{
    match n {
        Some(x) => Some(x.to_string()),
        None => None,
    }
}

/// The concatenation of a sequence of lists, first to last.
pub open spec fn concat_all<A>(s: Seq<Seq<A>>) -> Seq<A>
    decreases s.len(),
{
    if s.len() == 0 {
        Seq::<A>::empty()
    } else {
        concat_all(s.drop_last()) + s.last()
    }
}

/// The first element of `s` that equals an element before it.
pub open spec fn first_duplicate<A>(s: Seq<A>) -> Option<A>
    decreases s.len(),
{
    if s.len() == 0 {
        None
    } else {
        match first_duplicate(s.drop_last()) {
            Some(x) => Some(x),
            None => if s.drop_last().contains(s.last()) {
                Some(s.last())
            } else {
                None
            },
        }
    }
}

/// An object that may carry a name, compared by name in duplicate checks.
pub trait Named {
    /// The name of the object, if it has one.
    spec fn name_view(&self) -> Option<Seq<char>>;

    /// The name of the object, if it has one.
    fn name_ref(&self) -> (r: Option<&Name>)
        ensures
            match r {
                Some(n) => self.name_view() == Some(n@),
                None => self.name_view() is None,
            },
    ;
}

/// The names carried by `items`, in order, leaving out the items without one.
pub open spec fn present_names<T: Named>(items: Seq<T>) -> Seq<Seq<char>>
    decreases items.len(),
{
    if items.len() == 0 {
        Seq::<Seq<char>>::empty()
    } else {
        let rest = present_names(items.drop_last());
        match items.last().name_view() {
            Some(n) => rest.push(n),
            None => rest,
        }
    }
}

/// The error reporting the first name that occurs twice among `names`, if any.
pub open spec fn duplicate_name_errors(names: Seq<Seq<char>>, object: ValidationObject) -> Seq<
    ValidationErrorView,
> {
    match first_duplicate(names) {
        Some(n) => seq![error_view(object, Some(n), ValidationErrorTypeView::DuplicateName)],
        None => Seq::<ValidationErrorView>::empty(),
    }
}

pub proof fn lemma_first_duplicate_extend<A>(s: Seq<A>, t: Seq<A>)
    requires
        first_duplicate(s) is Some,
    ensures
        first_duplicate(s + t) == first_duplicate(s),
    decreases t.len(),
{
    if t.len() == 0 {
        assert(s + t =~= s);
    } else {
        lemma_first_duplicate_extend(s, t.drop_last());
        assert((s + t).drop_last() =~= s + t.drop_last());
    }
}

pub proof fn lemma_present_names_prefix<T: Named>(items: Seq<T>, k: int) -> (t: Seq<Seq<char>>)
    requires
        0 <= k <= items.len(),
    ensures
        present_names(items) == present_names(items.subrange(0, k)) + t,
    decreases items.len() - k,
{
    if k == items.len() {
        assert(items.subrange(0, k) =~= items);
        assert(present_names(items) =~= present_names(items.subrange(0, k)) + Seq::<Seq<char>>::empty());
        Seq::<Seq<char>>::empty()
    } else {
        let t = lemma_present_names_prefix(items, k + 1);
        let next = items.subrange(0, k + 1);
        assert(next.drop_last() =~= items.subrange(0, k));
        match next.last().name_view() {
            Some(n) => {
                assert(present_names(items) =~= present_names(items.subrange(0, k)) + (seq![n] + t));
                seq![n] + t
            },
            None => t,
        }
    }
}

fn contains_name(seen: &Vec<&Name>, n: &Name) -> (r: bool)
    ensures
        r == seen@.map_values(|x: &Name| x@).contains(n@),
{
    let ghost names = seen@.map_values(|x: &Name| x@);
    let mut j: usize = 0;
    while j < seen.len()
        invariant
            j <= seen.len(),
            names == seen@.map_values(|x: &Name| x@),
            forall|k: int| 0 <= k < j ==> names[k] != n@,
        decreases seen.len() - j,
    {
        if seen[j].is(n.as_str()) {
            assert(names[j as int] == n@);
            return true;
        }
        j = j + 1;
    }
    false
}

/// Finds the first name that occurs a second time among the named `items`.
pub fn find_duplicate_name<T: Named>(items: &Vec<T>) -> (r: Option<&Name>)
    ensures
        match r {
            Some(n) => first_duplicate(present_names(items@)) == Some(n@),
            None => first_duplicate(present_names(items@)) is None,
        },
{
    let mut seen: Vec<&Name> = Vec::new();
    let mut i: usize = 0;
    while i < items.len()
        invariant
            i <= items.len(),
            seen@.map_values(|n: &Name| n@) == present_names(items@.subrange(0, i as int)),
            first_duplicate(present_names(items@.subrange(0, i as int))) is None,
        decreases items.len() - i,
    {
        let ghost pre = items@.subrange(0, i as int);
        let ghost next = items@.subrange(0, i + 1);
        assert(next.drop_last() =~= pre);
        match items[i].name_ref() {
            Some(n) => {
                let ghost names = seen@.map_values(|x: &Name| x@);
                assert(next.last() == items@[i as int]);
                assert(present_names(next) == names.push(n@));
                if contains_name(&seen, n) {
                    proof {
                        assert(names.push(n@).drop_last() =~= names);
                        assert(first_duplicate(present_names(next)) == Some(n@));
                        let t = lemma_present_names_prefix(items@, i + 1);
                        lemma_first_duplicate_extend(present_names(next), t);
                    }
                    return Some(n);
                }
                proof {
                    assert(present_names(next) == names.push(n@));
                    assert(names.push(n@).drop_last() =~= names);
                    assert(!names.contains(n@));
                }
                seen.push(n);
                assert(seen@.map_values(|x: &Name| x@) =~= names.push(n@));
            },
            None => {},
        }
        i = i + 1;
    }
    assert(items@.subrange(0, i as int) =~= items@);
    None
}

/// The position of the first of `items` named `name`.
pub open spec fn first_named<T: Named>(items: Seq<T>, name: Seq<char>) -> Option<int>
    decreases items.len(),
{
    if items.len() == 0 {
        None
    } else if items[0].name_view() == Some(name) {
        Some(0)
    } else {
        match first_named(items.drop_first(), name) {
            Some(i) => Some(i + 1),
            None => None,
        }
    }
}

pub proof fn lemma_first_named<T: Named>(items: Seq<T>, name: Seq<char>)
    ensures
        first_named(items, name) matches Some(i) ==> 0 <= i < items.len() && items[i].name_view()
            == Some(name),
        first_named(items, name) is None ==> forall|j: int|
            0 <= j < items.len() ==> items[j].name_view() != Some(name),
    decreases items.len(),
{
    if items.len() > 0 && items[0].name_view() != Some(name) {
        lemma_first_named(items.drop_first(), name);
        assert forall|j: int| 1 <= j < items.len() implies items[j] == items.drop_first()[j - 1] by {}
    }
}

/// The item [first_named] picks comes before every other item of that name.
pub proof fn lemma_first_named_is_first<T: Named>(items: Seq<T>, name: Seq<char>)
    ensures
        first_named(items, name) matches Some(i) ==> forall|j: int|
            0 <= j < i ==> (#[trigger] items[j]).name_view() != Some(name),
    decreases items.len(),
{
    if items.len() > 0 && items[0].name_view() != Some(name) {
        let rest = items.drop_first();
        lemma_first_named_is_first(rest, name);
        lemma_first_named(rest, name);
        if let Some(k) = first_named(rest, name) {
            assert forall|j: int| 0 <= j < k + 1 implies (#[trigger] items[j]).name_view() != Some(name) by {
                if j > 0 {
                    assert(items[j] == rest[j - 1]);
                }
            }
        }
    }
}

pub proof fn lemma_first_named_from<T: Named>(items: Seq<T>, name: Seq<char>, i: int)
    requires
        0 <= i <= items.len(),
        forall|j: int| 0 <= j < i ==> items[j].name_view() != Some(name),
    ensures
        first_named(items, name) == (match first_named(items.subrange(i, items.len() as int), name) {
            Some(k) => Some(k + i),
            None => None,
        }),
    decreases i,
{
    if i == 0 {
        assert(items.subrange(0, items.len() as int) =~= items);
    } else {
        assert forall|j: int| 0 <= j < i - 1 implies items.drop_first()[j].name_view() != Some(name) by {
            assert(items.drop_first()[j] == items[j + 1]);
        }
        lemma_first_named_from(items.drop_first(), name, i - 1);
        assert(items.drop_first().subrange(i - 1, items.len() - 1) =~= items.subrange(i, items.len() as int));
    }
}

/// Looks up the first of `items` named `name`.
pub fn find_by_name<'a, T: Named>(items: &'a Vec<T>, name: &str) -> (r: Option<&'a T>)
    ensures
        match first_named(items@, name@) {
            Some(i) => r == Some(&items@[i]),
            None => r is None,
        },
{
    let mut i: usize = 0;
    while i < items.len()
        invariant
            i <= items.len(),
            forall|j: int| 0 <= j < i ==> items@[j].name_view() != Some(name@),
        decreases items.len() - i,
    {
        let found = match items[i].name_ref() {
            Some(n) => n.is(name),
            None => false,
        };
        if found {
            proof {
                lemma_first_named_from(items@, name@, i as int);
                assert(items@.subrange(i as int, items@.len() as int)[0] == items@[i as int]);
            }
            return Some(&items[i]);
        }
        i = i + 1;
    }
    proof {
        lemma_first_named_from(items@, name@, i as int);
        assert(items@.subrange(i as int, items@.len() as int).len() == 0);
    }
    None
}

/// The error reporting that an object has no name, if it has none.
pub open spec fn missing_name_errors(name: Option<Name>, object: ValidationObject) -> Seq<
    ValidationErrorView,
> {
    if name is None {
        seq![error_view(object, None, ValidationErrorTypeView::MissingName)]
    } else {
        Seq::<ValidationErrorView>::empty()
    }
}

/// Records that an object has no name, if it has none.
pub fn check_missing_name(name: &Option<Name>, object: ValidationObject, result: &mut ValidationResult)
    ensures
        final(result)@ == old(result)@ + missing_name_errors(*name, object),
{
    if name.is_none() {
        result.push(ValidationError::new(object, None, ValidationErrorType::MissingName));
    } else {
        assert(old(result)@ + missing_name_errors(*name, object) =~= old(result)@);
    }
}

/// Records the first name that occurs twice among the named `items`, if any.
pub fn check_duplicate_names<T: Named>(items: &Vec<T>, object: ValidationObject, result: &mut ValidationResult)
    ensures
        final(result)@ == old(result)@ + duplicate_name_errors(present_names(items@), object),
{
    match find_duplicate_name(items) {
        Some(n) => {
            result.push(ValidationError::new(object, Some(n.to_string()), ValidationErrorType::DuplicateName));
            assert(old(result)@.push(error_view(object, Some(n@), ValidationErrorTypeView::DuplicateName))
                =~= old(result)@ + duplicate_name_errors(present_names(items@), object));
        },
        None => {
            assert(old(result)@ + duplicate_name_errors(present_names(items@), object) =~= old(result)@);
        },
    }
}

/// An object that checks itself on its own, without reference to other objects.
pub trait Check {
    /// The problems the check of this object records, in order.
    spec fn validation_errors(&self) -> Seq<ValidationErrorView>;

    /// Performs validation checks on the object.
    fn validate(&self, result: &mut ValidationResult)
        ensures
            final(result)@ == old(result)@ + self.validation_errors(),
    ;
}

/// The problems the checks of `items` record, first item first.
pub open spec fn all_errors<T: Check>(items: Seq<T>) -> Seq<ValidationErrorView> {
    concat_all(items.map_values(|x: T| x.validation_errors()))
}

/// Checks every one of `items`, in order.
pub fn validate_all<T: Check>(items: &Vec<T>, result: &mut ValidationResult)
    ensures
        final(result)@ == old(result)@ + all_errors(items@),
{
    let ghost start = result@;
    let mut i: usize = 0;
    while i < items.len()
        invariant
            i <= items.len(),
            result@ == start + all_errors(items@.subrange(0, i as int)),
        decreases items.len() - i,
    {
        items[i].validate(result);
        proof {
            let pre = items@.subrange(0, i as int);
            let next = items@.subrange(0, i + 1);
            assert(next.map_values(|x: T| x.validation_errors()).drop_last() =~= pre.map_values(
                |x: T| x.validation_errors(),
            ));
            assert(next.map_values(|x: T| x.validation_errors()).last() == items@[i as int].validation_errors());
        }
        i = i + 1;
    }
    assert(items@.subrange(0, i as int) =~= items@);
}

/// The error reporting that a link from an object of kind `object` named `name` to an object of
/// kind `target` leads nowhere, unless the link was `found`.
pub open spec fn link_errors(
    object: ValidationObject,
    name: Option<Seq<char>>,
    found: bool,
    target: ValidationObject,
    link: Seq<Seq<char>>,
) -> Seq<ValidationErrorView> {
    if found {
        Seq::<ValidationErrorView>::empty()
    } else {
        seq![error_view(object, name, ValidationErrorTypeView::LinkNotFound(target, link))]
    }
}

/// Records that a link of an object leads nowhere, unless it was `found`.
pub fn check_link(
    found: bool,
    object: ValidationObject,
    name: &Option<Name>,
    target: ValidationObject,
    link: &Node,
    result: &mut ValidationResult,
)
    ensures
        final(result)@ == old(result)@ + link_errors(object, opt_name(*name), found, target, link@),
{
    if !found {
        result.push(ValidationError::new(object, name_string(name), ValidationErrorType::LinkNotFound(target, link.clone())));
        assert(old(result)@.push(error_view(object, opt_name(*name), ValidationErrorTypeView::LinkNotFound(target, link@)))
            =~= old(result)@ + link_errors(object, opt_name(*name), found, target, link@));
    } else {
        assert(old(result)@ + link_errors(object, opt_name(*name), found, target, link@) =~= old(result)@);
    }
}

/// A name of an object as an optional name, for the errors about it.
pub fn some_name(name: &Name) -> (r: Option<Name>)
    ensures
        opt_name(r) == Some(name@),
{
    Some(name.clone())
}

impl Named for Name {
    open spec fn name_view(&self) -> Option<Seq<char>> {
        Some(self@)
    }

    fn name_ref(&self) -> (r: Option<&Name>) {
        Some(self)
    }
}

/// The names of a sequence of names are their texts.
pub proof fn lemma_present_names_of_names(names: Seq<Name>)
    ensures
        present_names(names) == crate::values::names_view(names),
    decreases names.len(),
{
    if names.len() > 0 {
        lemma_present_names_of_names(names.drop_last());
        assert(crate::values::names_view(names) =~= crate::values::names_view(names.drop_last()).push(names.last()@));
    } else {
        assert(crate::values::names_view(names) =~= Seq::<Seq<char>>::empty());
    }
}

/// The name a link of exactly one name points to.
pub open spec fn single_link(link: Seq<Seq<char>>) -> Option<Seq<char>> {
    if link.len() == 1 {
        Some(link[0])
    } else {
        None
    }
}

/// The position of the first of `items` named by a link of exactly one name.
pub open spec fn named_link<T: Named>(items: Seq<T>, link: Seq<Seq<char>>) -> Option<int> {
    match single_link(link) {
        Some(n) => first_named(items, n),
        None => None,
    }
}

/// Follows a link of exactly one name to the first of `items` with that name.
pub fn find_by_link<'a, T: Named>(items: &'a Vec<T>, link: &Node) -> (r: Option<&'a T>)
    ensures
        match named_link(items@, link@) {
            Some(i) => r == Some(&items@[i]),
            None => r is None,
        },
{
    match crate::values::single(link.names()) {
        Some(n) => find_by_name(items, n.as_str()),
        None => None,
    }
}

impl<'a, T: Named> Named for &'a T {
    open spec fn name_view(&self) -> Option<Seq<char>> {
        (**self).name_view()
    }

    fn name_ref(&self) -> (r: Option<&Name>) {
        (**self).name_ref()
    }
}

impl<'a, T: Check> Check for &'a T {
    open spec fn validation_errors(&self) -> Seq<ValidationErrorView> {
        (**self).validation_errors()
    }

    fn validate(&self, result: &mut ValidationResult) {
        (**self).validate(result)
    }
}

} // verus!
