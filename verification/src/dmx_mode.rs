//! Describes the DMX modes of a device: the channels, how they are made up, and the links
//! between them.

use vstd::prelude::*;
use crate::attribute::{Attribute, SubPhysicalUnit};
use crate::fixture_type::FixtureType;
use crate::geometry::{preorder, Geometry};
use crate::physical_descriptions::{ColorSpace, DmxProfile, Emitter, Filter, Gamut, PhysicalDescriptions};
use crate::text::{
    all_digits, chars_of, decimal, is_digit, is_whitespace, join, join_chars, lemma_decimal,
    lemma_parse_signed_decimal, lemma_split_join, parse_i32_range, parse_signed,
    push_signed_decimal, range_eq, signed_decimal, slice_chars, split, split_chars,
    string_from_chars, trim, trim_range,
};
use crate::validation::{
    check_duplicate_names, check_link, check_missing_name, duplicate_name_errors, error_view,
    find_by_link, find_by_name, first_named, lemma_first_named, lemma_first_named_is_first,
    lemma_present_names_of_names,
    link_errors, missing_name_errors, name_string, named_link, opt_name, present_names,
    single_link, some_name, Named, ValidationError, ValidationErrorType, ValidationErrorTypeView,
    ValidationErrorView, ValidationObject, ValidationResult,
};
use crate::values::{
    dmx_value_fits, dmx_value_from_text, dmx_value_text, lemma_trim_plain, lossy_name, names_view,
    valid_name, DmxValue, Name, Node,
};
use crate::wheel::{Wheel, WheelSlot};

verus! {

/// Describes the logical control of the device in a specific mode.
#[derive(Debug)]
pub struct DmxMode {
    /// The unique name of the DMX mode.
    pub name: Option<Name>,
    /// Description of the DMX mode.
    pub description: String,
    /// Name of the first geometry in the device.
    pub geometry: Option<Name>,
    /// All DMX channels used in this mode.
    pub dmx_channels: Vec<DmxChannel>,
    /// Relations between channels.
    pub relations: Vec<Relation>,
    /// Macros of the manufacturer.
    pub ft_macros: Vec<FtMacro>,
}

/// Every logical channel of every one of `channels` links an attribute (its link is not empty),
/// so that each has a name.
pub open spec fn channels_named(channels: Seq<DmxChannel>) -> bool {
    forall|i: int| 0 <= i < channels.len() ==> (#[trigger] channels[i]).logical_channels_named()
}

/// The first logical channel of `channel`, if it has one, links an attribute, so that the
/// channel has a name.
pub open spec fn channel_head_named(channel: DmxChannel) -> bool {
    channel.logical_channels@.len() > 0 ==> channel.logical_channels@[0].attribute@.len() > 0
}

/// Looking `name` up among `channels` reads the names of named channels only: every channel up
/// to the first one named `name`, or every channel when none is, has a name.
pub open spec fn lookup_named(channels: Seq<DmxChannel>, name: Seq<char>) -> bool
    decreases channels.len(),
{
    channels.len() == 0 || (channel_head_named(channels[0]) && (channels[0].name_view() == name
        || lookup_named(channels.drop_first(), name)))
}

/// When every channel is named, every lookup among them reads named channels only.
pub proof fn lemma_all_lookups_named(channels: Seq<DmxChannel>)
    requires
        channels_named(channels),
    ensures
        forall|name: Seq<char>| #[trigger] lookup_named(channels, name),
{
    assert forall|name: Seq<char>| #[trigger] lookup_named(channels, name) by {
        lemma_named_lookups(channels, name);
    }
}

/// Following a link of one name to a DMX channel of `mode` reads named channels only.
pub open spec fn channel_lookup_ok(mode: DmxMode, link: Seq<Seq<char>>) -> bool {
    link.len() == 1 ==> lookup_named(mode.dmx_channels@, link[0])
}

/// Following a link `channel.logical.function` into `mode` reads named channels only.
pub open spec fn function_lookup_ok(mode: DmxMode, link: Seq<Seq<char>>) -> bool {
    link.len() == 3 ==> lookup_named(mode.dmx_channels@, link[0])
}

/// When every channel is named, any lookup reads named channels only.
pub proof fn lemma_named_lookups(channels: Seq<DmxChannel>, name: Seq<char>)
    requires
        channels_named(channels),
    ensures
        lookup_named(channels, name),
    decreases channels.len(),
{
    if channels.len() > 0 {
        assert(channels[0].logical_channels_named());
        assert(channels_named(channels.drop_first())) by {
            assert forall|i: int| 0 <= i < channels.drop_first().len() implies (#[trigger] channels.drop_first()[i]).logical_channels_named() by {
                assert(channels.drop_first()[i] == channels[i + 1]);
            }
        }
        lemma_named_lookups(channels.drop_first(), name);
    }
}

/// The position of the first of `channels` whose name is `name`.
pub open spec fn first_channel_named(channels: Seq<DmxChannel>, name: Seq<char>) -> Option<int>
    decreases channels.len(),
{
    if channels.len() == 0 {
        None
    } else if channels[0].name_view() == name {
        Some(0)
    } else {
        match first_channel_named(channels.drop_first(), name) {
            Some(i) => Some(i + 1),
            None => None,
        }
    }
}

proof fn lemma_first_channel_named_from(channels: Seq<DmxChannel>, name: Seq<char>, i: int)
    requires
        0 <= i <= channels.len(),
        forall|j: int| 0 <= j < i ==> (#[trigger] channels[j]).name_view() != name,
    ensures
        first_channel_named(channels, name) == (match first_channel_named(
            channels.subrange(i, channels.len() as int),
            name,
        ) {
            Some(k) => Some(k + i),
            None => None,
        }),
    decreases i,
{
    if i == 0 {
        assert(channels.subrange(0, channels.len() as int) =~= channels);
    } else {
        assert forall|j: int| 0 <= j < i - 1 implies (#[trigger] channels.drop_first()[j]).name_view() != name by {
            assert(channels.drop_first()[j] == channels[j + 1]);
        }
        lemma_first_channel_named_from(channels.drop_first(), name, i - 1);
        assert(channels.drop_first().subrange(i - 1, channels.len() - 1) =~= channels.subrange(i, channels.len() as int));
    }
}

proof fn lemma_first_channel_named(channels: Seq<DmxChannel>, name: Seq<char>)
    ensures
        first_channel_named(channels, name) matches Some(i) ==> 0 <= i < channels.len()
            && channels[i].name_view() == name,
    decreases channels.len(),
{
    if channels.len() > 0 && channels[0].name_view() != name {
        lemma_first_channel_named(channels.drop_first(), name);
    }
}

/// Where a link `channel.logical.function` leads inside `mode`: the positions of the DMX channel,
/// the logical channel and the channel function, when the link has exactly three names and each
/// is found.
pub open spec fn function_link(mode: DmxMode, link: Seq<Seq<char>>) -> Option<(int, int, int)> {
    if link.len() != 3 {
        None
    } else {
        match first_channel_named(mode.dmx_channels@, link[0]) {
            Some(c) => {
                let ch = mode.dmx_channels@[c];
                match first_named(ch.logical_channels@, link[1]) {
                    Some(l) => match first_named(ch.logical_channels@[l].channel_functions@, link[2]) {
                        Some(f) => Some((c, l, f)),
                        None => None,
                    },
                    None => None,
                }
            },
            None => None,
        }
    }
}

impl DmxMode {
    /// Looks up a [DmxChannel] by [name](DmxChannel::name).
    pub fn dmx_channel(&self, name: &str) -> (r: Option<&DmxChannel>)
        requires
            lookup_named(self.dmx_channels@, name@),
        ensures
            match first_channel_named(self.dmx_channels@, name@) {
                Some(i) => r == Some(&self.dmx_channels@[i]),
                None => r is None,
            },
    {
        assert(self.dmx_channels@.subrange(0, self.dmx_channels@.len() as int) =~= self.dmx_channels@);
        let mut i: usize = 0;
        while i < self.dmx_channels.len()
            invariant
                i <= self.dmx_channels@.len(),
                lookup_named(self.dmx_channels@.subrange(i as int, self.dmx_channels@.len() as int), name@),
                forall|j: int| 0 <= j < i ==> (#[trigger] self.dmx_channels@[j]).name_view() != name@,
            decreases self.dmx_channels@.len() - i,
        {
            let ghost rest = self.dmx_channels@.subrange(i as int, self.dmx_channels@.len() as int);
            assert(rest[0] == self.dmx_channels@[i as int]);
            assert(rest.drop_first() =~= self.dmx_channels@.subrange(i + 1, self.dmx_channels@.len() as int));
            let n = self.dmx_channels[i].name();
            if n.is(name) {
                proof {
                    lemma_first_channel_named_from(self.dmx_channels@, name@, i as int);
                    assert(self.dmx_channels@.subrange(i as int, self.dmx_channels@.len() as int)[0] == self.dmx_channels@[i as int]);
                }
                return Some(&self.dmx_channels[i]);
            }
            i = i + 1;
        }
        proof {
            lemma_first_channel_named_from(self.dmx_channels@, name@, i as int);
            assert(self.dmx_channels@.subrange(i as int, self.dmx_channels@.len() as int).len() == 0);
        }
        None
    }

    /// Looks up a [Relation] by name.
    pub fn relation(&self, name: &str) -> (r: Option<&Relation>)
        ensures
            match first_named(self.relations@, name@) {
                Some(i) => r == Some(&self.relations@[i]),
                None => r is None,
            },
    {
        find_by_name(&self.relations, name)
    }

    /// Looks up an [FtMacro] by name.
    pub fn ft_macro(&self, name: &str) -> (r: Option<&FtMacro>)
        ensures
            match first_named(self.ft_macros@, name@) {
                Some(i) => r == Some(&self.ft_macros@[i]),
                None => r is None,
            },
    {
        find_by_name(&self.ft_macros, name)
    }

    /// Follows a link `channel.logical.function` to a channel function of this mode.
    pub fn function_by_link(&self, link: &Node) -> (r: Option<(&DmxChannel, &LogicalChannel, &ChannelFunction)>)
        requires
            function_lookup_ok(*self, link@),
        ensures
            match function_link(*self, link@) {
                Some((c, l, f)) => r == Some((
                    &self.dmx_channels@[c],
                    &self.dmx_channels@[c].logical_channels@[l],
                    &self.dmx_channels@[c].logical_channels@[l].channel_functions@[f],
                )),
                None => r is None,
            },
    {
        let names = link.names();
        if names.len() != 3 {
            return None;
        }
        assert(link@[0] == names@[0]@);
        let channel = match self.dmx_channel(names[0].as_str()) {
            Some(c) => c,
            None => return None,
        };
        proof {
            lemma_first_channel_named(self.dmx_channels@, names@[0]@);
        }
        let logical = match channel.logical_channel(names[1].as_str()) {
            Some(l) => l,
            None => return None,
        };
        proof {
            let c = first_channel_named(self.dmx_channels@, names@[0]@)->0;
            lemma_first_named(self.dmx_channels@[c].logical_channels@, names@[1]@);
        }
        let function = match logical.channel_function(names[2].as_str()) {
            Some(f) => f,
            None => return None,
        };
        Some((channel, logical, function))
    }
}

impl Named for DmxMode {
    open spec fn name_view(&self) -> Option<Seq<char>> {
        opt_name(self.name)
    }

    fn name_ref(&self) -> (r: Option<&Name>) {
        self.name.as_ref()
    }
}

/// Defines a DMX channel in the footprint of a device.
#[derive(Debug)]
pub struct DmxChannel {
    /// Number of the DMX break.
    pub dmx_break: DmxBreak,
    /// Relative addresses of the channel from highest to least significant; `None` when the
    /// channel has no addresses.
    pub offset: Option<Vec<i32>>,
    /// Link to the channel function that is activated by default.
    pub initial_function: Option<Node>,
    /// Highlight value for the channel, if it responds to highlight commands.
    pub highlight: Option<DmxValue>,
    /// Name of the geometry the channel controls.
    pub geometry: Name,
    /// Mutually exclusive logical channels that make up the DMX channel.
    pub logical_channels: Vec<LogicalChannel>,
}

impl DmxChannel {
    /// Each logical channel of this DMX channel links an attribute, so that each has a name.
    pub open spec fn logical_channels_named(&self) -> bool {
        forall|i: int| 0 <= i < self.logical_channels@.len() ==> (#[trigger] self.logical_channels@[i]).attribute@.len() > 0
    }

    /// The name of the channel: the geometry name and the name of the first logical channel,
    /// separated by `_`.
    pub open spec fn name_view(&self) -> Seq<char> {
        self.geometry@ + seq!['_'] + if self.logical_channels@.len() > 0 {
            self.logical_channels@[0].attribute@[0]
        } else {
            Seq::<char>::empty()
        }
    }

    /// Returns the unique name of the DMX channel.
    ///
    /// The name of a DMX channel consists of the linked geometry name and the attribute name of
    /// the first logical channel, separated by a `_` character. For example a DMX channel linked
    /// to a geometry named `Yoke` with a logical channel connected to the `Pan` attribute, is
    /// named `Yoke_Pan`.
    pub fn name(&self) -> (r: Name)
        requires
            self.logical_channels@.len() > 0 ==> self.logical_channels@[0].attribute@.len() > 0,
        ensures
            r@ == self.name_view(),
    {
        let mut text = crate::text::chars_of(self.geometry.as_str());
        text.push('_');
        if self.logical_channels.len() > 0 {
            let first = self.logical_channels[0].name();
            let first_str = first.as_str();
            let tail = crate::text::chars_of(first_str);
            let mut i: usize = 0;
            let ghost head = text@;
            while i < tail.len()
                invariant
                    i <= tail@.len(),
                    text@ == head + tail@.subrange(0, i as int),
                decreases tail@.len() - i,
            {
                text.push(tail[i]);
                i = i + 1;
                assert(text@ =~= head + tail@.subrange(0, i as int));
            }
            assert(tail@.subrange(0, i as int) =~= tail@);
        }
        assert(text@ =~= self.name_view());
        proof {
            let t = text@;
            assert(valid_name(self.geometry@));
            assert forall|k: int| 0 <= k < t.len() implies crate::values::valid_name_char(#[trigger] t[k]) by {
                if k < self.geometry@.len() {
                    assert(t[k] == self.geometry@[k]);
                } else if k > self.geometry@.len() {
                    let a = self.logical_channels@[0].attribute@[0];
                    assert(valid_name(a));
                    assert(t[k] == a[k - self.geometry@.len() - 1]);
                }
            }
        }
        match Name::new(crate::text::string_from_chars(&text)) {
            Ok(n) => n,
            Err(_) => {
                assert(false);
                Name::new_lossy(crate::text::string_from_chars(&text))
            },
        }
    }

    /// The positions of the logical channel and channel function activated by default: the
    /// function named by the initial function link (`channel.logical.function`, where
    /// `channel` is this channel's name), or, without a link, the first function of the first
    /// logical channel.
    pub open spec fn initial_function_index(&self) -> Option<(int, int)> {
        match self.initial_function {
            None => if self.logical_channels@.len() > 0 && self.logical_channels@[0].channel_functions@.len() > 0 {
                Some((0, 0))
            } else {
                None
            },
            Some(node) => {
                let n = node@;
                if n.len() == 3 && n[0] == self.name_view() {
                    match first_named(self.logical_channels@, n[1]) {
                        Some(l) => match first_named(self.logical_channels@[l].channel_functions@, n[2]) {
                            Some(f) => Some((l, f)),
                            None => None,
                        },
                        None => None,
                    }
                } else {
                    None
                }
            },
        }
    }

    /// Following the initial function link reads a named channel only: when the link has a
    /// first name, the first logical channel of this channel, if any, links an attribute.
    pub open spec fn initial_lookup_ok(&self) -> bool {
        match self.initial_function {
            Some(n) => n@.len() > 0 ==> channel_head_named(*self),
            None => true,
        }
    }

    /// Looks up the [ChannelFunction] that is activated by default for this channel.
    ///
    /// If an initial function is not specified by the channel, it defaults to the first channel
    /// function of the first logical function of this DMX channel.
    pub fn initial_function(&self) -> (r: Option<(&LogicalChannel, &ChannelFunction)>)
        requires
            self.initial_lookup_ok(),
        ensures
            match self.initial_function_index() {
                Some((l, f)) => r == Some((
                    &self.logical_channels@[l],
                    &self.logical_channels@[l].channel_functions@[f],
                )),
                None => r is None,
            },
    {
        let node = match &self.initial_function {
            None => {
                if self.logical_channels.len() == 0 {
                    return None;
                }
                let first_channel = &self.logical_channels[0];
                if first_channel.channel_functions.len() == 0 {
                    return None;
                }
                return Some((first_channel, &first_channel.channel_functions[0]));
            },
            Some(node) => node,
        };
        let names = node.names();
        if names.len() == 0 {
            return None;
        }
        if !names[0].is(self.name().as_str()) {
            return None;
        }
        if names.len() < 2 {
            return None;
        }
        let logical_channel = match self.logical_channel(names[1].as_str()) {
            Some(l) => l,
            None => return None,
        };
        proof {
            lemma_first_named(self.logical_channels@, names@[1]@);
        }
        if names.len() != 3 {
            return None;
        }
        let function = match logical_channel.channel_function(names[2].as_str()) {
            Some(f) => f,
            None => return None,
        };
        Some((logical_channel, function))
    }

    /// Looks up a [LogicalChannel] by [name](LogicalChannel::name).
    pub fn logical_channel(&self, name: &str) -> (r: Option<&LogicalChannel>)
        ensures
            match first_named(self.logical_channels@, name@) {
                Some(i) => r == Some(&self.logical_channels@[i]),
                None => r is None,
            },
    {
        find_by_name(&self.logical_channels, name)
    }
}

/// Number of the DMX break specified by a [DmxChannel], or the special "Overwrite" value.
///
/// Text format: an integer, or `Overwrite`.
#[derive(Debug, Clone, Copy, PartialEq, Eq, Hash, Structural)]
pub enum DmxBreak {
    /// Defined DMX break.
    Value(i32),
    /// Indicates this number will be overwritten by a reference geometry.
    Overwrite,
}

impl DmxBreak {
    /// The default break, `1`.
    pub fn default() -> (r: DmxBreak)
        ensures
            r == DmxBreak::Value(1),
    {
        DmxBreak::Value(1)
    }
}

/// Defines a logical, mutually exclusive part of a [DmxChannel].
#[derive(Debug)]
pub struct LogicalChannel {
    /// Link to the attribute.
    pub attribute: Node,
    /// With snap enabled, the channel jumps directly to a new value; otherwise it fades.
    pub snap: bool,
    /// Whether the channel functions react to a group control of the control system.
    pub master: LogicalChannelMaster,
    /// Minimum fade time for moves in black action, as the bit pattern of an IEEE 754 double.
    pub mib_fade: u64,
    /// Minimum fade time for the channel functions to change DMX values, as the bit pattern of
    /// an IEEE 754 double.
    pub dmx_change_time_limit: u64,
    /// The channel functions, one for each DMX range.
    pub channel_functions: Vec<ChannelFunction>,
}

impl Named for LogicalChannel {
    /// A logical channel is named by the first name of its attribute link.
    open spec fn name_view(&self) -> Option<Seq<char>> {
        if self.attribute@.len() > 0 {
            Some(self.attribute@[0])
        } else {
            None
        }
    }

    fn name_ref(&self) -> (r: Option<&Name>) {
        let names = self.attribute.names();
        if names.len() > 0 {
            Some(&names[0])
        } else {
            None
        }
    }
}

impl LogicalChannel {
    /// Returns the unique name of the logical channel: the linked attribute name.
    pub fn name(&self) -> (r: &Name)
        requires
            self.attribute@.len() > 0,
        ensures
            r@ == self.attribute@[0],
    {
        &self.attribute.names()[0]
    }

    /// Looks up a [ChannelFunction] by name.
    pub fn channel_function(&self, name: &str) -> (r: Option<&ChannelFunction>)
        ensures
            match first_named(self.channel_functions@, name@) {
                Some(i) => r == Some(&self.channel_functions@[i]),
                None => r is None,
            },
    {
        find_by_name(&self.channel_functions, name)
    }
}

/// Whether the channel functions of a [LogicalChannel] react to a group control.
#[derive(Debug, Clone, Copy, PartialEq, Eq, Hash, Structural)]
pub enum LogicalChannelMaster {
    /// Reacts to a grand master.
    Grand,
    /// Reacts to a group master.
    Group,
    /// Does not react to a master (the default); written `None` in a description.
    NoMaster,
}

/// Defines the function of a DMX range in a [LogicalChannel]. Physical numbers are held as bit
/// patterns of IEEE 754 doubles.
#[derive(Debug)]
pub struct ChannelFunction {
    /// The unique name of the channel function.
    pub name: Option<Name>,
    /// Link to the attribute controlled by this channel function.
    pub attribute: Node,
    /// The manufacturer's original name of the attribute.
    pub original_attribute: String,
    /// Start DMX value.
    pub dmx_from: DmxValue,
    /// Default DMX value when activated by the control system.
    pub default: DmxValue,
    /// Physical start value.
    pub physical_from: u64,
    /// Physical end value.
    pub physical_to: u64,
    /// Time in seconds to move from min to max.
    pub real_fade: u64,
    /// Time in seconds to accelerate from stop to maximum velocity.
    pub real_acceleration: u64,
    /// Optional link to a wheel.
    pub wheel: Option<Node>,
    /// Optional link to an emitter.
    pub emitter: Option<Node>,
    /// Optional link to a filter.
    pub filter: Option<Node>,
    /// Optional link to a color space.
    pub color_space: Option<Node>,
    /// Optional link to a gamut.
    pub gamut: Option<Node>,
    /// Optional link to a DMX channel or channel function acting as mode master.
    pub mode_master: Option<ModeMasterNode>,
    /// Optional link to a DMX profile.
    pub dmx_profile: Option<Node>,
    /// Minimum physical value used for the DMX profile.
    pub min: Option<u64>,
    /// Maximum physical value used for the DMX profile.
    pub max: Option<u64>,
    /// Custom name to address this channel function with other protocols.
    pub custom_name: Option<String>,
    /// The channel sets of the channel function.
    pub channel_sets: Vec<ChannelSet>,
    /// The sub channel sets of the channel function.
    pub sub_channel_sets: Vec<SubChannelSet>,
}

impl Named for ChannelFunction {
    open spec fn name_view(&self) -> Option<Seq<char>> {
        opt_name(self.name)
    }

    fn name_ref(&self) -> (r: Option<&Name>) {
        self.name.as_ref()
    }
}

impl ChannelFunction {
    /// Returns the minimum physical value used for the DMX profile, or the physical start value
    /// if a minimum is not set.
    pub fn min(&self) -> (r: u64)
        ensures
            r == match self.min {
                Some(m) => m,
                None => self.physical_from,
            },
    {
        match self.min {
            Some(m) => m,
            None => self.physical_from,
        }
    }

    /// Returns the maximum physical value used for the DMX profile, or the physical end value
    /// if a maximum is not set.
    pub fn max(&self) -> (r: u64)
        ensures
            r == match self.max {
                Some(m) => m,
                None => self.physical_to,
            },
    {
        match self.max {
            Some(m) => m,
            None => self.physical_to,
        }
    }

    /// Looks up a [ChannelSet] by name.
    pub fn channel_set(&self, name: &str) -> (r: Option<&ChannelSet>)
        ensures
            match first_named(self.channel_sets@, name@) {
                Some(i) => r == Some(&self.channel_sets@[i]),
                None => r is None,
            },
    {
        find_by_name(&self.channel_sets, name)
    }

    /// Looks up a [SubChannelSet] by name.
    pub fn sub_channel_set(&self, name: &str) -> (r: Option<&SubChannelSet>)
        ensures
            match first_named(self.sub_channel_sets@, name@) {
                Some(i) => r == Some(&self.sub_channel_sets@[i]),
                None => r is None,
            },
    {
        find_by_name(&self.sub_channel_sets, name)
    }
}

/// The attribute link of a channel function that names none: `NoFeature`.
pub fn default_channel_function_attribute() -> (r: Node)
    ensures
        r@ == seq!["NoFeature"@],
{
    let text = "NoFeature";
    proof {
        reveal_strlit("NoFeature");
    }
    let n = match Name::new(crate::text::string_from_chars(&crate::text::chars_of(text))) {
        Ok(n) => n,
        Err(_) => {
            assert(false);
            Name::new_lossy(text.to_owned())
        },
    };
    let mut v: Vec<Name> = Vec::new();
    v.push(n);
    let r = Node::new(v);
    assert(names_view(v@) =~= seq![n@]);
    r
}

/// A link to a [DmxChannel] or [ChannelFunction] defining the mode master of a
/// [ChannelFunction].
#[derive(Debug)]
pub struct ModeMasterNode {
    /// Link to a DMX channel (`channel`) or a channel function (`channel.logical.function`).
    pub node: Node,
    /// The lowest DMX value of the master that activates the channel function.
    pub from: DmxValue,
    /// The highest DMX value of the master that activates the channel function.
    pub to: DmxValue,
}

/// The [DmxChannel] or [ChannelFunction] linked as a mode master with a [ModeMasterNode].
#[derive(Debug, Clone, Copy)]
pub enum ModeMaster<'s> {
    /// Mode master is a DMX channel.
    DmxChannel(&'s DmxChannel),
    /// Mode master is a channel function.
    ChannelFunction(&'s DmxChannel, &'s LogicalChannel, &'s ChannelFunction),
}

/// Where a mode master link leads inside `mode`: a DMX channel (a link of one name), or a
/// channel function (a link of three names).
pub open spec fn mode_master_link(mode: DmxMode, link: Seq<Seq<char>>) -> Option<(int, Option<(int, int)>)> {
    if link.len() == 0 {
        None
    } else {
        match first_channel_named(mode.dmx_channels@, link[0]) {
            None => None,
            Some(c) => if link.len() == 1 {
                Some((c, None))
            } else {
                match function_link(mode, link) {
                    Some((c2, l, f)) => Some((c2, Some((l, f)))),
                    None => None,
                }
            },
        }
    }
}

impl ModeMasterNode {
    /// Looks up the [DmxChannel] or [ChannelFunction] linked by this channel function.
    pub fn mode_master<'s>(&self, parent_dmx_mode: &'s DmxMode) -> (r: Option<ModeMaster<'s>>)
        requires
            channel_lookup_ok(*parent_dmx_mode, self.node@),
            function_lookup_ok(*parent_dmx_mode, self.node@),
        ensures
            match mode_master_link(*parent_dmx_mode, self.node@) {
                Some((c, None)) => r == Some(ModeMaster::DmxChannel(&parent_dmx_mode.dmx_channels@[c])),
                Some((c, Some((l, f)))) => r == Some(ModeMaster::ChannelFunction(
                    &parent_dmx_mode.dmx_channels@[c],
                    &parent_dmx_mode.dmx_channels@[c].logical_channels@[l],
                    &parent_dmx_mode.dmx_channels@[c].logical_channels@[l].channel_functions@[f],
                )),
                None => r is None,
            },
    {
        let names = self.node.names();
        if names.len() == 1 {
            assert(self.node@[0] == names@[0]@);
            return match parent_dmx_mode.dmx_channel(names[0].as_str()) {
                Some(c) => Some(ModeMaster::DmxChannel(c)),
                None => None,
            };
        }
        if names.len() != 3 {
            return None;
        }
        match parent_dmx_mode.function_by_link(&self.node) {
            Some((c, l, f)) => Some(ModeMaster::ChannelFunction(c, l, f)),
            None => None,
        }
    }
}

/// Defines a channel set of a [ChannelFunction].
#[derive(Debug)]
pub struct ChannelSet {
    /// The name of the channel set.
    pub name: Option<Name>,
    /// Start DMX value.
    pub dmx_from: DmxValue,
    /// Physical start value, as the bit pattern of an IEEE 754 double.
    pub physical_from: Option<u64>,
    /// Physical end value, as the bit pattern of an IEEE 754 double.
    pub physical_to: Option<u64>,
    /// The index (from 0) of the linked slot in the wheel of the parent channel function.
    pub wheel_slot_index: Option<i32>,
}

impl Named for ChannelSet {
    open spec fn name_view(&self) -> Option<Seq<char>> {
        opt_name(self.name)
    }

    fn name_ref(&self) -> (r: Option<&Name>) {
        self.name.as_ref()
    }
}

impl ChannelSet {
    /// Returns the physical start value of the channel set, or that of the parent channel
    /// function if no value is provided.
    pub fn physical_from(&self, parent_channel_function: &ChannelFunction) -> (r: u64)
        ensures
            r == match self.physical_from {
                Some(v) => v,
                None => parent_channel_function.physical_from,
            },
    {
        match self.physical_from {
            Some(v) => v,
            None => parent_channel_function.physical_from,
        }
    }

    /// Returns the physical end value of the channel set, or that of the parent channel
    /// function if no value is provided.
    pub fn physical_to(&self, parent_channel_function: &ChannelFunction) -> (r: u64)
        ensures
            r == match self.physical_to {
                Some(v) => v,
                None => parent_channel_function.physical_to,
            },
    {
        match self.physical_to {
            Some(v) => v,
            None => parent_channel_function.physical_to,
        }
    }

    /// Looks up the [WheelSlot] linked by this channel set, in the [Wheel] linked by the parent
    /// channel function.
    pub fn wheel_slot<'s>(&self, parent_wheel: &'s Wheel) -> (r: Option<&'s WheelSlot>)
        ensures
            match self.wheel_slot_index {
                Some(i) => if 0 <= i < parent_wheel.slots@.len() {
                    r == Some(&parent_wheel.slots@[i as int])
                } else {
                    r is None
                },
                None => r is None,
            },
    {
        match self.wheel_slot_index {
            Some(i) => {
                if i >= 0 && (i as usize) < parent_wheel.slots.len() {
                    Some(&parent_wheel.slots[i as usize])
                } else {
                    None
                }
            },
            None => None,
        }
    }
}

/// Defines a sub channel set of a [ChannelFunction]. Physical numbers are held as bit patterns
/// of IEEE 754 doubles.
#[derive(Debug)]
pub struct SubChannelSet {
    /// The name of the sub channel set.
    pub name: Option<Name>,
    /// Physical start value.
    pub physical_from: u64,
    /// Physical end value.
    pub physical_to: u64,
    /// Link to the sub physical unit.
    pub sub_physical_unit: Node,
    /// Optional link to the DMX profile.
    pub dmx_profile: Option<Node>,
}

impl Named for SubChannelSet {
    open spec fn name_view(&self) -> Option<Seq<char>> {
        opt_name(self.name)
    }

    fn name_ref(&self) -> (r: Option<&Name>) {
        self.name.as_ref()
    }
}

/// Describes a dependency between a DMX channel and a channel function.
#[derive(Debug)]
pub struct Relation {
    /// The unique name of the relation.
    pub name: Option<Name>,
    /// Link to the master DMX channel.
    pub master: Node,
    /// Link to the following channel function.
    pub follower: Node,
    /// Type of the relation.
    pub type_: RelationType,
}

impl Named for Relation {
    open spec fn name_view(&self) -> Option<Seq<char>> {
        opt_name(self.name)
    }

    fn name_ref(&self) -> (r: Option<&Name>) {
        self.name.as_ref()
    }
}

/// Where a link of exactly one name to a DMX channel leads inside `mode`.
pub open spec fn channel_link(mode: DmxMode, link: Seq<Seq<char>>) -> Option<int> {
    if link.len() == 1 {
        first_channel_named(mode.dmx_channels@, link[0])
    } else {
        None
    }
}

/// Follows a link of exactly one name to a DMX channel of `mode`.
fn channel_by_link<'s>(mode: &'s DmxMode, link: &Node) -> (r: Option<&'s DmxChannel>)
    requires
        channel_lookup_ok(*mode, link@),
    ensures
        match channel_link(*mode, link@) {
            Some(i) => r == Some(&mode.dmx_channels@[i]),
            None => r is None,
        },
{
    match crate::values::single(link.names()) {
        Some(name) => {
            assert(link@[0] == name@);
            mode.dmx_channel(name.as_str())
        },
        None => None,
    }
}

impl Relation {
    /// Looks up the master [DmxChannel] linked by this relation.
    pub fn master<'s>(&self, parent_dmx_mode: &'s DmxMode) -> (r: Option<&'s DmxChannel>)
        requires
            channel_lookup_ok(*parent_dmx_mode, self.master@),
        ensures
            match channel_link(*parent_dmx_mode, self.master@) {
                Some(i) => r == Some(&parent_dmx_mode.dmx_channels@[i]),
                None => r is None,
            },
    {
        channel_by_link(parent_dmx_mode, &self.master)
    }

    /// Looks up the follower [ChannelFunction] linked by this relation.
    pub fn follower<'s>(&self, parent_dmx_mode: &'s DmxMode) -> (r: Option<(&'s DmxChannel, &'s LogicalChannel, &'s ChannelFunction)>)
        requires
            function_lookup_ok(*parent_dmx_mode, self.follower@),
        ensures
            match function_link(*parent_dmx_mode, self.follower@) {
                Some((c, l, f)) => r == Some((
                    &parent_dmx_mode.dmx_channels@[c],
                    &parent_dmx_mode.dmx_channels@[c].logical_channels@[l],
                    &parent_dmx_mode.dmx_channels@[c].logical_channels@[l].channel_functions@[f],
                )),
                None => r is None,
            },
    {
        parent_dmx_mode.function_by_link(&self.follower)
    }

    /// The problems [validate](Self::validate) records: a missing name, a master link that
    /// leads nowhere, then a follower link that leads nowhere.
    pub open spec fn validation_errors(&self, mode: DmxMode) -> Seq<ValidationErrorView> {
        missing_name_errors(self.name, ValidationObject::Relation) + (if channel_link(mode, self.master@) is None {
            seq![error_view(ValidationObject::Relation, opt_name(self.name), ValidationErrorTypeView::LinkNotFound(ValidationObject::DmxChannel, self.master@))]
        } else {
            Seq::<ValidationErrorView>::empty()
        }) + if function_link(mode, self.follower@) is None {
            seq![error_view(ValidationObject::Relation, opt_name(self.name), ValidationErrorTypeView::LinkNotFound(ValidationObject::ChannelFunction, self.follower@))]
        } else {
            Seq::<ValidationErrorView>::empty()
        }
    }

    /// Following the master and follower links into `mode` reads named channels only.
    pub open spec fn lookups_ok(&self, mode: DmxMode) -> bool {
        channel_lookup_ok(mode, self.master@) && function_lookup_ok(mode, self.follower@)
    }

    /// Performs validation checks on the object.
    pub fn validate(&self, parent_dmx_mode: &DmxMode, result: &mut ValidationResult)
        requires
            self.lookups_ok(*parent_dmx_mode),
        ensures
            final(result)@ == old(result)@ + self.validation_errors(*parent_dmx_mode),
    {
        check_missing_name(&self.name, ValidationObject::Relation, result);
        if self.master(parent_dmx_mode).is_none() {
            result.push(ValidationError::new(
                ValidationObject::Relation,
                name_string(&self.name),
                ValidationErrorType::LinkNotFound(ValidationObject::DmxChannel, self.master.clone()),
            ));
        }
        if self.follower(parent_dmx_mode).is_none() {
            result.push(ValidationError::new(
                ValidationObject::Relation,
                name_string(&self.name),
                ValidationErrorType::LinkNotFound(ValidationObject::ChannelFunction, self.follower.clone()),
            ));
        }
        assert(result@ =~= old(result)@ + self.validation_errors(*parent_dmx_mode));
    }
}

/// Type of relation described in a [Relation].
#[derive(Debug, Clone, Copy, PartialEq, Eq, Hash, Structural)]
pub enum RelationType {
    /// Master multiplies the value of the follower.
    Multiply,
    /// Master overrides the value of the follower.
    Override,
}

/// Describes a macro to be executed by the control system: several sequences of DMX values.
#[derive(Debug)]
pub struct FtMacro {
    /// The unique name of the macro.
    pub name: Option<Name>,
    /// Optional link to a channel function (`channel.logical.function`).
    pub channel_function: Option<Node>,
    /// The DMX sequences of the macro.
    pub dmx: Vec<MacroDmx>,
}

/// An individual sequence of DMX values in an [FtMacro].
#[derive(Debug)]
pub struct MacroDmx {
    /// The steps of the sequence.
    pub steps: Vec<MacroDmxStep>,
}

/// A step in a [MacroDmx] sequence.
#[derive(Debug)]
pub struct MacroDmxStep {
    /// Duration of the step in seconds, as the bit pattern of an IEEE 754 double.
    pub duration: u64,
    /// Values to apply in this step.
    pub values: Vec<MacroDmxValue>,
}

/// The duration of a macro step that names none: one second, as the bit pattern of an IEEE 754
/// double.
pub fn default_macro_dmx_step_duration() -> (r: u64)
    ensures
        r == crate::values::ONE_BITS,
{
    crate::values::ONE_BITS
}

/// The value of a DMX channel in a [MacroDmxStep].
#[derive(Debug)]
pub struct MacroDmxValue {
    /// Value of the DMX channel.
    pub value: DmxValue,
    /// Link to the DMX channel.
    pub dmx_channel: Node,
}

impl MacroDmxValue {
    /// Looks up the [DmxChannel] linked by this value.
    pub fn dmx_channel<'s>(&self, parent_dmx_mode: &'s DmxMode) -> (r: Option<&'s DmxChannel>)
        requires
            channel_lookup_ok(*parent_dmx_mode, self.dmx_channel@),
        ensures
            match channel_link(*parent_dmx_mode, self.dmx_channel@) {
                Some(i) => r == Some(&parent_dmx_mode.dmx_channels@[i]),
                None => r is None,
            },
    {
        channel_by_link(parent_dmx_mode, &self.dmx_channel)
    }
}

/// The errors about the macro named `name` for the values among `values` whose DMX channel link
/// leads nowhere in `mode`, in order.
pub open spec fn macro_value_errors(mode: DmxMode, name: Option<Seq<char>>, values: Seq<MacroDmxValue>) -> Seq<ValidationErrorView>
    decreases values.len(),
{
    if values.len() == 0 {
        Seq::<ValidationErrorView>::empty()
    } else {
        macro_value_errors(mode, name, values.drop_last()) + link_errors(
            ValidationObject::FtMacro,
            name,
            channel_link(mode, values.last().dmx_channel@) is Some,
            ValidationObject::DmxChannel,
            values.last().dmx_channel@,
        )
    }
}

/// The errors about the values of each of `steps`, first step first.
pub open spec fn macro_step_errors(mode: DmxMode, name: Option<Seq<char>>, steps: Seq<MacroDmxStep>) -> Seq<ValidationErrorView>
    decreases steps.len(),
{
    if steps.len() == 0 {
        Seq::<ValidationErrorView>::empty()
    } else {
        macro_step_errors(mode, name, steps.drop_last()) + macro_value_errors(mode, name, steps.last().values@)
    }
}

/// The errors about the values of each step of each of `sequences`, first sequence first.
pub open spec fn macro_dmx_errors(mode: DmxMode, name: Option<Seq<char>>, sequences: Seq<MacroDmx>) -> Seq<ValidationErrorView>
    decreases sequences.len(),
{
    if sequences.len() == 0 {
        Seq::<ValidationErrorView>::empty()
    } else {
        macro_dmx_errors(mode, name, sequences.drop_last()) + macro_step_errors(mode, name, sequences.last().steps@)
    }
}

/// Following the DMX channel links of `values` into `mode` reads named channels only.
pub open spec fn value_lookups_ok(mode: DmxMode, values: Seq<MacroDmxValue>) -> bool {
    forall|k: int| 0 <= k < values.len() ==> channel_lookup_ok(mode, (#[trigger] values[k]).dmx_channel@)
}

/// Following the DMX channel links of the values of `steps` into `mode` reads named channels
/// only.
pub open spec fn step_lookups_ok(mode: DmxMode, steps: Seq<MacroDmxStep>) -> bool {
    forall|i: int| 0 <= i < steps.len() ==> value_lookups_ok(mode, (#[trigger] steps[i]).values@)
}

/// Following the DMX channel links of the values of the steps of `sequences` into `mode` reads
/// named channels only.
pub open spec fn dmx_lookups_ok(mode: DmxMode, sequences: Seq<MacroDmx>) -> bool {
    forall|d: int| 0 <= d < sequences.len() ==> step_lookups_ok(mode, (#[trigger] sequences[d]).steps@)
}

fn check_macro_values(values: &Vec<MacroDmxValue>, mode: &DmxMode, name: &Option<Name>, result: &mut ValidationResult)
    requires
        value_lookups_ok(*mode, values@),
    ensures
        final(result)@ == old(result)@ + macro_value_errors(*mode, opt_name(*name), values@),
{
    let ghost start = result@;
    let mut i: usize = 0;
    while i < values.len()
        invariant
            i <= values@.len(),
            value_lookups_ok(*mode, values@),
            result@ == start + macro_value_errors(*mode, opt_name(*name), values@.subrange(0, i as int)),
        decreases values@.len() - i,
    {
        let found = values[i].dmx_channel(mode).is_some();
        check_link(found, ValidationObject::FtMacro, name, ValidationObject::DmxChannel, &values[i].dmx_channel, result);
        proof {
            assert(values@.subrange(0, i + 1).drop_last() =~= values@.subrange(0, i as int));
        }
        i = i + 1;
    }
    assert(values@.subrange(0, i as int) =~= values@);
}

fn check_macro_steps(steps: &Vec<MacroDmxStep>, mode: &DmxMode, name: &Option<Name>, result: &mut ValidationResult)
    requires
        step_lookups_ok(*mode, steps@),
    ensures
        final(result)@ == old(result)@ + macro_step_errors(*mode, opt_name(*name), steps@),
{
    let ghost start = result@;
    let mut i: usize = 0;
    while i < steps.len()
        invariant
            i <= steps@.len(),
            step_lookups_ok(*mode, steps@),
            result@ == start + macro_step_errors(*mode, opt_name(*name), steps@.subrange(0, i as int)),
        decreases steps@.len() - i,
    {
        check_macro_values(&steps[i].values, mode, name, result);
        proof {
            assert(steps@.subrange(0, i + 1).drop_last() =~= steps@.subrange(0, i as int));
        }
        i = i + 1;
    }
    assert(steps@.subrange(0, i as int) =~= steps@);
}

fn check_macro_dmx(sequences: &Vec<MacroDmx>, mode: &DmxMode, name: &Option<Name>, result: &mut ValidationResult)
    requires
        dmx_lookups_ok(*mode, sequences@),
    ensures
        final(result)@ == old(result)@ + macro_dmx_errors(*mode, opt_name(*name), sequences@),
{
    let ghost start = result@;
    let mut i: usize = 0;
    while i < sequences.len()
        invariant
            i <= sequences@.len(),
            dmx_lookups_ok(*mode, sequences@),
            result@ == start + macro_dmx_errors(*mode, opt_name(*name), sequences@.subrange(0, i as int)),
        decreases sequences@.len() - i,
    {
        check_macro_steps(&sequences[i].steps, mode, name, result);
        proof {
            assert(sequences@.subrange(0, i + 1).drop_last() =~= sequences@.subrange(0, i as int));
        }
        i = i + 1;
    }
    assert(sequences@.subrange(0, i as int) =~= sequences@);
}

impl Named for FtMacro {
    open spec fn name_view(&self) -> Option<Seq<char>> {
        opt_name(self.name)
    }

    fn name_ref(&self) -> (r: Option<&Name>) {
        self.name.as_ref()
    }
}

impl FtMacro {
    /// Looks up the [ChannelFunction] linked by this macro.
    pub fn channel_function<'s>(&self, parent_dmx_mode: &'s DmxMode) -> (r: Option<(&'s DmxChannel, &'s LogicalChannel, &'s ChannelFunction)>)
        requires
            self.channel_function matches Some(link) ==> function_lookup_ok(*parent_dmx_mode, link@),
        ensures
            match self.channel_function {
                None => r is None,
                Some(link) => match function_link(*parent_dmx_mode, link@) {
                    Some((c, l, f)) => r == Some((
                        &parent_dmx_mode.dmx_channels@[c],
                        &parent_dmx_mode.dmx_channels@[c].logical_channels@[l],
                        &parent_dmx_mode.dmx_channels@[c].logical_channels@[l].channel_functions@[f],
                    )),
                    None => r is None,
                },
            },
    {
        match &self.channel_function {
            None => None,
            Some(link) => parent_dmx_mode.function_by_link(link),
        }
    }

    /// Following the channel function link and the DMX channel links of the values into `mode`
    /// reads named channels only.
    pub open spec fn lookups_ok(&self, mode: DmxMode) -> bool {
        &&& self.channel_function matches Some(link) ==> function_lookup_ok(mode, link@)
        &&& dmx_lookups_ok(mode, self.dmx@)
    }

    /// The problems [validate](Self::validate) records: a missing name, a channel function link
    /// that leads nowhere, then every DMX value whose channel link leads nowhere.
    pub open spec fn validation_errors(&self, mode: DmxMode) -> Seq<ValidationErrorView> {
        missing_name_errors(self.name, ValidationObject::FtMacro) + (match self.channel_function {
            Some(link) => link_errors(
                ValidationObject::FtMacro,
                opt_name(self.name),
                function_link(mode, link@) is Some,
                ValidationObject::ChannelFunction,
                link@,
            ),
            None => Seq::<ValidationErrorView>::empty(),
        }) + macro_dmx_errors(mode, opt_name(self.name), self.dmx@)
    }

    /// Performs validation checks on the object.
    pub fn validate(&self, parent_dmx_mode: &DmxMode, result: &mut ValidationResult)
        requires
            self.lookups_ok(*parent_dmx_mode),
        ensures
            final(result)@ == old(result)@ + self.validation_errors(*parent_dmx_mode),
    {
        check_missing_name(&self.name, ValidationObject::FtMacro, result);
        let ghost after_name = result@;
        match &self.channel_function {
            Some(link) => {
                let found = parent_dmx_mode.function_by_link(link).is_some();
                check_link(found, ValidationObject::FtMacro, &self.name, ValidationObject::ChannelFunction, link, result);
            },
            None => {
                assert(after_name + Seq::<ValidationErrorView>::empty() =~= after_name);
            },
        }
        check_macro_dmx(&self.dmx, parent_dmx_mode, &self.name, result);
        assert(result@ =~= old(result)@ + self.validation_errors(*parent_dmx_mode));
    }
}

/// Where an optional link of exactly one name leads among `items`.
pub open spec fn opt_link<T: Named>(items: Seq<T>, link: Option<Node>) -> Option<int> {
    match link {
        Some(l) => named_link(items, l@),
        None => None,
    }
}

/// The error reporting that an optional link leads nowhere, when there is a link and it was
/// not `found`.
pub open spec fn opt_link_errors(
    object: ValidationObject,
    name: Option<Seq<char>>,
    link: Option<Node>,
    found: bool,
    target: ValidationObject,
) -> Seq<ValidationErrorView> {
    match link {
        Some(l) => link_errors(object, name, found, target, l@),
        None => Seq::<ValidationErrorView>::empty(),
    }
}

/// Records that an optional link leads nowhere, when there is a link and it was not `found`.
fn check_opt_link(
    found: bool,
    object: ValidationObject,
    name: &Option<Name>,
    target: ValidationObject,
    link: &Option<Node>,
    result: &mut ValidationResult,
)
    ensures
        final(result)@ == old(result)@ + opt_link_errors(object, opt_name(*name), *link, found, target),
{
    match link {
        Some(l) => check_link(found, object, name, target, l, result),
        None => {
            assert(old(result)@ + opt_link_errors(object, opt_name(*name), *link, found, target) =~= old(result)@);
        },
    }
}

/// Where a color space link of exactly one name leads in `pd`: the main color space when it
/// has that name, or else the first of the additional color spaces with it.
pub open spec fn color_space_link(pd: PhysicalDescriptions, link: Option<Node>) -> Option<ColorSpace> {
    match link {
        Some(l) => match single_link(l@) {
            Some(n) => match pd.color_space {
                Some(c) if c.name_view() == Some(n) => Some(c),
                _ => match first_named(pd.additional_color_spaces@, n) {
                    Some(i) => Some(pd.additional_color_spaces@[i]),
                    None => None,
                },
            },
            None => None,
        },
        None => None,
    }
}

/// Where an attribute link of exactly one name leads among the attributes of `ft`.
pub open spec fn attribute_link(ft: FixtureType, link: Seq<Seq<char>>) -> Option<int> {
    named_link(ft.attribute_definitions.attributes@, link)
}

impl LogicalChannel {
    /// Looks up the [Attribute] linked by this logical channel.
    pub fn attribute<'s>(&self, parent_fixture_type: &'s FixtureType) -> (r: Option<&'s Attribute>)
        ensures
            match attribute_link(*parent_fixture_type, self.attribute@) {
                Some(i) => r == Some(&parent_fixture_type.attribute_definitions.attributes@[i]),
                None => r is None,
            },
    {
        find_by_link(&parent_fixture_type.attribute_definitions.attributes, &self.attribute)
    }

    /// Following the mode master links of the channel functions into `mode` reads named
    /// channels only.
    pub open spec fn lookups_ok(&self, mode: DmxMode) -> bool {
        forall|i: int| 0 <= i < self.channel_functions@.len() ==> (#[trigger] self.channel_functions@[i]).lookups_ok(mode)
    }

    /// The problems [validate](Self::validate) records: an attribute link that leads nowhere,
    /// the first channel function name that occurs twice, then the problems of each channel
    /// function.
    pub open spec fn validation_errors(&self, ft: FixtureType, mode: DmxMode) -> Seq<ValidationErrorView> {
        link_errors(
            ValidationObject::LogicalChannel,
            Some(self.attribute@[0]),
            attribute_link(ft, self.attribute@) is Some,
            ValidationObject::Attribute,
            self.attribute@,
        ) + duplicate_name_errors(present_names(self.channel_functions@), ValidationObject::ChannelFunction)
            + function_errors(self.channel_functions@, ft, mode)
    }

    /// Performs validation checks on the object.
    pub fn validate(&self, parent_fixture_type: &FixtureType, parent_dmx_mode: &DmxMode, result: &mut ValidationResult)
        requires
            self.attribute@.len() > 0,
            self.lookups_ok(*parent_dmx_mode),
        ensures
            final(result)@ == old(result)@ + self.validation_errors(*parent_fixture_type, *parent_dmx_mode),
    {
        let found = self.attribute(parent_fixture_type).is_some();
        let name = some_name(self.name());
        check_link(found, ValidationObject::LogicalChannel, &name, ValidationObject::Attribute, &self.attribute, result);
        check_duplicate_names(&self.channel_functions, ValidationObject::ChannelFunction, result);
        let ghost start = result@;
        let mut i: usize = 0;
        while i < self.channel_functions.len()
            invariant
                i <= self.channel_functions@.len(),
                self.lookups_ok(*parent_dmx_mode),
                result@ == start + function_errors(self.channel_functions@.subrange(0, i as int), *parent_fixture_type, *parent_dmx_mode),
            decreases self.channel_functions@.len() - i,
        {
            self.channel_functions[i].validate(parent_fixture_type, parent_dmx_mode, result);
            proof {
                assert(self.channel_functions@.subrange(0, i + 1).drop_last() =~= self.channel_functions@.subrange(0, i as int));
            }
            i = i + 1;
        }
        assert(self.channel_functions@.subrange(0, i as int) =~= self.channel_functions@);
        assert(result@ =~= old(result)@ + self.validation_errors(*parent_fixture_type, *parent_dmx_mode));
    }
}

/// The problems the checks of `functions` record, first function first.
pub open spec fn function_errors(functions: Seq<ChannelFunction>, ft: FixtureType, mode: DmxMode) -> Seq<ValidationErrorView>
    decreases functions.len(),
{
    if functions.len() == 0 {
        Seq::<ValidationErrorView>::empty()
    } else {
        function_errors(functions.drop_last(), ft, mode) + functions.last().validation_errors(ft, mode)
    }
}

/// The problems the checks of `sets` record, first set first.
pub open spec fn channel_set_errors(sets: Seq<ChannelSet>, ft: FixtureType, function: ChannelFunction) -> Seq<ValidationErrorView>
    decreases sets.len(),
{
    if sets.len() == 0 {
        Seq::<ValidationErrorView>::empty()
    } else {
        channel_set_errors(sets.drop_last(), ft, function) + sets.last().validation_errors(ft, function)
    }
}

/// The problems the checks of `sets` record, first set first.
pub open spec fn sub_channel_set_errors(sets: Seq<SubChannelSet>, ft: FixtureType) -> Seq<ValidationErrorView>
    decreases sets.len(),
{
    if sets.len() == 0 {
        Seq::<ValidationErrorView>::empty()
    } else {
        sub_channel_set_errors(sets.drop_last(), ft) + sets.last().validation_errors(ft)
    }
}

impl ChannelFunction {
    /// Looks up the [Attribute] linked by this channel function.
    pub fn attribute<'s>(&self, parent_fixture_type: &'s FixtureType) -> (r: Option<&'s Attribute>)
        ensures
            match attribute_link(*parent_fixture_type, self.attribute@) {
                Some(i) => r == Some(&parent_fixture_type.attribute_definitions.attributes@[i]),
                None => r is None,
            },
    {
        find_by_link(&parent_fixture_type.attribute_definitions.attributes, &self.attribute)
    }

    /// Looks up the [Wheel] linked by this channel function.
    pub fn wheel<'s>(&self, parent_fixture_type: &'s FixtureType) -> (r: Option<&'s Wheel>)
        ensures
            match opt_link(parent_fixture_type.wheels@, self.wheel) {
                Some(i) => r == Some(&parent_fixture_type.wheels@[i]),
                None => r is None,
            },
    {
        match &self.wheel {
            Some(link) => find_by_link(&parent_fixture_type.wheels, link),
            None => None,
        }
    }

    /// Looks up the [Emitter] linked by this channel function.
    pub fn emitter<'s>(&self, parent_fixture_type: &'s FixtureType) -> (r: Option<&'s Emitter>)
        ensures
            match opt_link(parent_fixture_type.physical_descriptions.emitters@, self.emitter) {
                Some(i) => r == Some(&parent_fixture_type.physical_descriptions.emitters@[i]),
                None => r is None,
            },
    {
        match &self.emitter {
            Some(link) => find_by_link(&parent_fixture_type.physical_descriptions.emitters, link),
            None => None,
        }
    }

    /// Looks up the [Filter] linked by this channel function.
    pub fn filter<'s>(&self, parent_fixture_type: &'s FixtureType) -> (r: Option<&'s Filter>)
        ensures
            match opt_link(parent_fixture_type.physical_descriptions.filters@, self.filter) {
                Some(i) => r == Some(&parent_fixture_type.physical_descriptions.filters@[i]),
                None => r is None,
            },
    {
        match &self.filter {
            Some(link) => find_by_link(&parent_fixture_type.physical_descriptions.filters, link),
            None => None,
        }
    }

    /// Looks up the [ColorSpace] linked by this channel function.
    pub fn color_space<'s>(&self, parent_fixture_type: &'s FixtureType) -> (r: Option<&'s ColorSpace>)
        ensures
            match color_space_link(parent_fixture_type.physical_descriptions, self.color_space) {
                Some(c) => r == Some(&c),
                None => r is None,
            },
    {
        match &self.color_space {
            Some(link) => match crate::values::single(link.names()) {
                Some(n) => {
                    let r = parent_fixture_type.physical_descriptions.color_space(n.as_str());
                    proof {
                        crate::validation::lemma_first_named(
                            parent_fixture_type.physical_descriptions.additional_color_spaces@,
                            n@,
                        );
                    }
                    r
                },
                None => None,
            },
            None => None,
        }
    }

    /// Looks up the [Gamut] linked by this channel function.
    pub fn gamut<'s>(&self, parent_fixture_type: &'s FixtureType) -> (r: Option<&'s Gamut>)
        ensures
            match opt_link(parent_fixture_type.physical_descriptions.gamuts@, self.gamut) {
                Some(i) => r == Some(&parent_fixture_type.physical_descriptions.gamuts@[i]),
                None => r is None,
            },
    {
        match &self.gamut {
            Some(link) => find_by_link(&parent_fixture_type.physical_descriptions.gamuts, link),
            None => None,
        }
    }

    /// Looks up the [DmxProfile] linked by this channel function.
    pub fn dmx_profile<'s>(&self, parent_fixture_type: &'s FixtureType) -> (r: Option<&'s DmxProfile>)
        ensures
            match opt_link(parent_fixture_type.physical_descriptions.dmx_profiles@, self.dmx_profile) {
                Some(i) => r == Some(&parent_fixture_type.physical_descriptions.dmx_profiles@[i]),
                None => r is None,
            },
    {
        match &self.dmx_profile {
            Some(link) => find_by_link(&parent_fixture_type.physical_descriptions.dmx_profiles, link),
            None => None,
        }
    }

    /// Following the mode master link, if any, into `mode` reads named channels only.
    pub open spec fn lookups_ok(&self, mode: DmxMode) -> bool {
        match self.mode_master {
            Some(m) => channel_lookup_ok(mode, m.node@) && function_lookup_ok(mode, m.node@),
            None => true,
        }
    }

    /// The problems of the links to wheels and to the physical descriptions: a wheel, emitter,
    /// filter, color space or gamut link that leads nowhere, in that order.
    pub open spec fn physical_link_errors(&self, ft: FixtureType) -> Seq<ValidationErrorView> {
        let n = opt_name(self.name);
        let pd = ft.physical_descriptions;
        let o = ValidationObject::ChannelFunction;
        opt_link_errors(o, n, self.wheel, opt_link(ft.wheels@, self.wheel) is Some, ValidationObject::Wheel)
            + opt_link_errors(o, n, self.emitter, opt_link(pd.emitters@, self.emitter) is Some, ValidationObject::Emitter)
            + opt_link_errors(o, n, self.filter, opt_link(pd.filters@, self.filter) is Some, ValidationObject::Filter)
            + opt_link_errors(o, n, self.color_space, color_space_link(pd, self.color_space) is Some, ValidationObject::ColorSpace)
            + opt_link_errors(o, n, self.gamut, opt_link(pd.gamuts@, self.gamut) is Some, ValidationObject::Gamut)
    }

    /// The problems of the channel function itself: a missing name, an attribute link that
    /// leads nowhere, the problems of [physical_link_errors](Self::physical_link_errors), then a
    /// mode master or DMX profile link that leads nowhere.
    pub open spec fn own_errors(&self, ft: FixtureType, mode: DmxMode) -> Seq<ValidationErrorView> {
        let n = opt_name(self.name);
        let o = ValidationObject::ChannelFunction;
        missing_name_errors(self.name, o)
            + link_errors(o, n, attribute_link(ft, self.attribute@) is Some, ValidationObject::Attribute, self.attribute@)
            + self.physical_link_errors(ft)
            + (match self.mode_master {
                Some(m) => link_errors(o, n, mode_master_link(mode, m.node@) is Some, ValidationObject::ModeMaster, m.node@),
                None => Seq::<ValidationErrorView>::empty(),
            })
            + opt_link_errors(o, n, self.dmx_profile, opt_link(ft.physical_descriptions.dmx_profiles@, self.dmx_profile) is Some, ValidationObject::DmxProfile)
    }

    /// The problems [validate](Self::validate) records: those of
    /// [own_errors](Self::own_errors), then the problems of each channel set and of each sub
    /// channel set.
    pub open spec fn validation_errors(&self, ft: FixtureType, mode: DmxMode) -> Seq<ValidationErrorView> {
        self.own_errors(ft, mode) + channel_set_errors(self.channel_sets@, ft, *self)
            + sub_channel_set_errors(self.sub_channel_sets@, ft)
    }

    fn check_physical_links(&self, parent_fixture_type: &FixtureType, result: &mut ValidationResult)
        ensures
            final(result)@ == old(result)@ + self.physical_link_errors(*parent_fixture_type),
    {
        let o = ValidationObject::ChannelFunction;
        let found = self.wheel(parent_fixture_type).is_some();
        check_opt_link(found, o, &self.name, ValidationObject::Wheel, &self.wheel, result);
        let found = self.emitter(parent_fixture_type).is_some();
        check_opt_link(found, o, &self.name, ValidationObject::Emitter, &self.emitter, result);
        let found = self.filter(parent_fixture_type).is_some();
        check_opt_link(found, o, &self.name, ValidationObject::Filter, &self.filter, result);
        let found = self.color_space(parent_fixture_type).is_some();
        check_opt_link(found, o, &self.name, ValidationObject::ColorSpace, &self.color_space, result);
        let found = self.gamut(parent_fixture_type).is_some();
        check_opt_link(found, o, &self.name, ValidationObject::Gamut, &self.gamut, result);
        assert(result@ =~= old(result)@ + self.physical_link_errors(*parent_fixture_type));
    }

    fn check_own(&self, parent_fixture_type: &FixtureType, parent_dmx_mode: &DmxMode, result: &mut ValidationResult)
        requires
            self.lookups_ok(*parent_dmx_mode),
        ensures
            final(result)@ == old(result)@ + self.own_errors(*parent_fixture_type, *parent_dmx_mode),
    {
        let o = ValidationObject::ChannelFunction;
        check_missing_name(&self.name, o, result);
        let found = self.attribute(parent_fixture_type).is_some();
        check_link(found, o, &self.name, ValidationObject::Attribute, &self.attribute, result);
        self.check_physical_links(parent_fixture_type, result);
        let ghost before_master = result@;
        match &self.mode_master {
            Some(m) => {
                let found = m.mode_master(parent_dmx_mode).is_some();
                check_link(found, o, &self.name, ValidationObject::ModeMaster, &m.node, result);
            },
            None => {
                assert(before_master + Seq::<ValidationErrorView>::empty() =~= before_master);
            },
        }
        let found = self.dmx_profile(parent_fixture_type).is_some();
        check_opt_link(found, o, &self.name, ValidationObject::DmxProfile, &self.dmx_profile, result);
        assert(result@ =~= old(result)@ + self.own_errors(*parent_fixture_type, *parent_dmx_mode));
    }

    /// Performs validation checks on the object.
    pub fn validate(&self, parent_fixture_type: &FixtureType, parent_dmx_mode: &DmxMode, result: &mut ValidationResult)
        requires
            self.lookups_ok(*parent_dmx_mode),
        ensures
            final(result)@ == old(result)@ + self.validation_errors(*parent_fixture_type, *parent_dmx_mode),
    {
        self.check_own(parent_fixture_type, parent_dmx_mode, result);
        let ghost start = result@;
        let mut i: usize = 0;
        while i < self.channel_sets.len()
            invariant
                i <= self.channel_sets@.len(),
                result@ == start + channel_set_errors(self.channel_sets@.subrange(0, i as int), *parent_fixture_type, *self),
            decreases self.channel_sets@.len() - i,
        {
            self.channel_sets[i].validate(parent_fixture_type, self, result);
            proof {
                assert(self.channel_sets@.subrange(0, i + 1).drop_last() =~= self.channel_sets@.subrange(0, i as int));
            }
            i = i + 1;
        }
        assert(self.channel_sets@.subrange(0, i as int) =~= self.channel_sets@);
        let ghost mid = result@;
        let mut j: usize = 0;
        while j < self.sub_channel_sets.len()
            invariant
                j <= self.sub_channel_sets@.len(),
                result@ == mid + sub_channel_set_errors(self.sub_channel_sets@.subrange(0, j as int), *parent_fixture_type),
            decreases self.sub_channel_sets@.len() - j,
        {
            self.sub_channel_sets[j].validate(parent_fixture_type, result);
            proof {
                assert(self.sub_channel_sets@.subrange(0, j + 1).drop_last() =~= self.sub_channel_sets@.subrange(0, j as int));
            }
            j = j + 1;
        }
        assert(self.sub_channel_sets@.subrange(0, j as int) =~= self.sub_channel_sets@);
        assert(result@ =~= old(result)@ + self.validation_errors(*parent_fixture_type, *parent_dmx_mode));
    }
}

impl ChannelSet {
    /// The problems [validate](Self::validate) records: a wheel slot index that is outside the
    /// slots of the wheel linked by the parent channel function, when both exist.
    pub open spec fn validation_errors(&self, ft: FixtureType, function: ChannelFunction) -> Seq<ValidationErrorView> {
        match (self.wheel_slot_index, opt_link(ft.wheels@, function.wheel)) {
            (Some(i), Some(w)) => if 0 <= i < ft.wheels@[w].slots@.len() {
                Seq::<ValidationErrorView>::empty()
            } else {
                seq![error_view(
                    ValidationObject::ChannelSet,
                    opt_name(self.name),
                    ValidationErrorTypeView::LinkNotFound(
                        ValidationObject::WheelSlot,
                        seq![lossy_name(signed_decimal(i as int))],
                    ),
                )]
            },
            _ => Seq::<ValidationErrorView>::empty(),
        }
    }

    /// Performs validation checks on the object.
    pub fn validate(&self, parent_fixture_type: &FixtureType, parent_channel_function: &ChannelFunction, result: &mut ValidationResult)
        ensures
            final(result)@ == old(result)@ + self.validation_errors(*parent_fixture_type, *parent_channel_function),
    {
        if let Some(index) = self.wheel_slot_index {
            if let Some(wheel) = parent_channel_function.wheel(parent_fixture_type) {
                if self.wheel_slot(wheel).is_none() {
                    let mut text: Vec<char> = Vec::new();
                    push_signed_decimal(&mut text, index as i64);
                    let name = Name::new_lossy(string_from_chars(&text));
                    let mut names: Vec<Name> = Vec::new();
                    names.push(name);
                    let link = Node::new(names);
                    assert(names_view(names@) =~= seq![name@]);
                    result.push(ValidationError::new(
                        ValidationObject::ChannelSet,
                        name_string(&self.name),
                        ValidationErrorType::LinkNotFound(ValidationObject::WheelSlot, link),
                    ));
                    assert(result@ =~= old(result)@ + self.validation_errors(*parent_fixture_type, *parent_channel_function));
                    return;
                }
            }
        }
        assert(result@ =~= old(result)@ + self.validation_errors(*parent_fixture_type, *parent_channel_function));
    }
}

/// The position of the first of `units` whose type is `t`.
pub open spec fn first_unit(units: Seq<SubPhysicalUnit>, t: Seq<char>) -> Option<int>
    decreases units.len(),
{
    if units.len() == 0 {
        None
    } else if units[0].type_@ == t {
        Some(0)
    } else {
        match first_unit(units.drop_first(), t) {
            Some(i) => Some(i + 1),
            None => None,
        }
    }
}

proof fn lemma_first_unit_from(units: Seq<SubPhysicalUnit>, t: Seq<char>, i: int)
    requires
        0 <= i <= units.len(),
        forall|j: int| 0 <= j < i ==> (#[trigger] units[j]).type_@ != t,
    ensures
        first_unit(units, t) == (match first_unit(units.subrange(i, units.len() as int), t) {
            Some(k) => Some(k + i),
            None => None,
        }),
    decreases i,
{
    if i == 0 {
        assert(units.subrange(0, units.len() as int) =~= units);
    } else {
        assert forall|j: int| 0 <= j < i - 1 implies (#[trigger] units.drop_first()[j]).type_@ != t by {
            assert(units.drop_first()[j] == units[j + 1]);
        }
        lemma_first_unit_from(units.drop_first(), t, i - 1);
        assert(units.drop_first().subrange(i - 1, units.len() - 1) =~= units.subrange(i, units.len() as int));
    }
}

/// Where a sub physical unit link `attribute.type` leads among the attributes of `ft`: the
/// first attribute with that name, and its first sub physical unit of that type.
pub open spec fn sub_unit_link(ft: FixtureType, link: Seq<Seq<char>>) -> Option<(int, int)> {
    if link.len() != 2 {
        None
    } else {
        match first_named(ft.attribute_definitions.attributes@, link[0]) {
            Some(a) => match first_unit(ft.attribute_definitions.attributes@[a].subphysical_units@, link[1]) {
                Some(k) => Some((a, k)),
                None => None,
            },
            None => None,
        }
    }
}

impl SubChannelSet {
    /// Looks up the [SubPhysicalUnit] linked by this sub channel set.
    pub fn sub_physical_unit<'s>(&self, parent_fixture_type: &'s FixtureType) -> (r: Option<&'s SubPhysicalUnit>)
        ensures
            match sub_unit_link(*parent_fixture_type, self.sub_physical_unit@) {
                Some((a, k)) => r == Some(&parent_fixture_type.attribute_definitions.attributes@[a].subphysical_units@[k]),
                None => r is None,
            },
    {
        let names = self.sub_physical_unit.names();
        if names.len() != 2 {
            return None;
        }
        let attribute = match parent_fixture_type.attribute_definitions.attribute(names[0].as_str()) {
            Some(a) => a,
            None => return None,
        };
        proof {
            crate::validation::lemma_first_named(parent_fixture_type.attribute_definitions.attributes@, names@[0]@);
        }
        assert(self.sub_physical_unit@[0] == names@[0]@);
        assert(self.sub_physical_unit@[1] == names@[1]@);
        let sub_name = names[1].as_str();
        let units = &attribute.subphysical_units;
        let ghost attrs = parent_fixture_type.attribute_definitions.attributes@;
        let ghost link = self.sub_physical_unit@;
        let ghost a = first_named(attrs, link[0])->0;
        assert(attrs[a].subphysical_units@ == units@);
        let mut i: usize = 0;
        while i < units.len()
            invariant
                i <= units@.len(),
                link == self.sub_physical_unit@,
                attrs == parent_fixture_type.attribute_definitions.attributes@,
                link.len() == 2,
                link[1] == sub_name@,
                first_named(attrs, link[0]) == Some(a),
                attrs[a].subphysical_units@ == units@,
                forall|j: int| 0 <= j < i ==> (#[trigger] units@[j]).type_@ != sub_name@,
            decreases units@.len() - i,
        {
            let t = crate::text::chars_of(units[i].type_.as_str());
            assert(t@.subrange(0, t@.len() as int) =~= t@);
            if crate::text::range_eq(&t, 0, t.len(), sub_name) {
                proof {
                    lemma_first_unit_from(units@, sub_name@, i as int);
                    assert(units@.subrange(i as int, units@.len() as int)[0] == units@[i as int]);
                }
                return Some(&units[i]);
            }
            i = i + 1;
        }
        proof {
            lemma_first_unit_from(units@, sub_name@, i as int);
            assert(units@.subrange(i as int, units@.len() as int).len() == 0);
        }
        None
    }

    /// Looks up the [DmxProfile] linked by this sub channel set.
    pub fn dmx_profile<'s>(&self, parent_fixture_type: &'s FixtureType) -> (r: Option<&'s DmxProfile>)
        ensures
            match opt_link(parent_fixture_type.physical_descriptions.dmx_profiles@, self.dmx_profile) {
                Some(i) => r == Some(&parent_fixture_type.physical_descriptions.dmx_profiles@[i]),
                None => r is None,
            },
    {
        match &self.dmx_profile {
            Some(link) => find_by_link(&parent_fixture_type.physical_descriptions.dmx_profiles, link),
            None => None,
        }
    }

    /// The problems [validate](Self::validate) records: a missing name, a sub physical unit
    /// link that leads nowhere, then a DMX profile link that leads nowhere.
    pub open spec fn validation_errors(&self, ft: FixtureType) -> Seq<ValidationErrorView> {
        let o = ValidationObject::SubChannelSet;
        missing_name_errors(self.name, o)
            + link_errors(o, opt_name(self.name), sub_unit_link(ft, self.sub_physical_unit@) is Some, ValidationObject::SubPhysicalUnit, self.sub_physical_unit@)
            + opt_link_errors(o, opt_name(self.name), self.dmx_profile, opt_link(ft.physical_descriptions.dmx_profiles@, self.dmx_profile) is Some, ValidationObject::DmxProfile)
    }

    /// Performs validation checks on the object.
    pub fn validate(&self, parent_fixture_type: &FixtureType, result: &mut ValidationResult)
        ensures
            final(result)@ == old(result)@ + self.validation_errors(*parent_fixture_type),
    {
        let o = ValidationObject::SubChannelSet;
        check_missing_name(&self.name, o, result);
        let found = self.sub_physical_unit(parent_fixture_type).is_some();
        check_link(found, o, &self.name, ValidationObject::SubPhysicalUnit, &self.sub_physical_unit, result);
        let found = self.dmx_profile(parent_fixture_type).is_some();
        check_opt_link(found, o, &self.name, ValidationObject::DmxProfile, &self.dmx_profile, result);
        assert(result@ =~= old(result)@ + self.validation_errors(*parent_fixture_type));
    }
}

/// The problems the checks of `channels` record, first channel first.
pub open spec fn channel_errors(channels: Seq<DmxChannel>, ft: FixtureType, mode: DmxMode) -> Seq<ValidationErrorView>
    decreases channels.len(),
{
    if channels.len() == 0 {
        Seq::<ValidationErrorView>::empty()
    } else {
        channel_errors(channels.drop_last(), ft, mode) + channels.last().validation_errors(ft, mode)
    }
}

/// The problems the checks of `channels` record, first channel first.
pub open spec fn logical_errors(channels: Seq<LogicalChannel>, ft: FixtureType, mode: DmxMode) -> Seq<ValidationErrorView>
    decreases channels.len(),
{
    if channels.len() == 0 {
        Seq::<ValidationErrorView>::empty()
    } else {
        logical_errors(channels.drop_last(), ft, mode) + channels.last().validation_errors(ft, mode)
    }
}

/// The problems the checks of `relations` record, first relation first.
pub open spec fn relation_errors(relations: Seq<Relation>, mode: DmxMode) -> Seq<ValidationErrorView>
    decreases relations.len(),
{
    if relations.len() == 0 {
        Seq::<ValidationErrorView>::empty()
    } else {
        relation_errors(relations.drop_last(), mode) + relations.last().validation_errors(mode)
    }
}

/// The problems the checks of `macros` record, first macro first.
pub open spec fn macro_errors(macros: Seq<FtMacro>, mode: DmxMode) -> Seq<ValidationErrorView>
    decreases macros.len(),
{
    if macros.len() == 0 {
        Seq::<ValidationErrorView>::empty()
    } else {
        macro_errors(macros.drop_last(), mode) + macros.last().validation_errors(mode)
    }
}

/// The names of `channels`, in order.
pub open spec fn channel_names(channels: Seq<DmxChannel>) -> Seq<Seq<char>> {
    channels.map_values(|c: DmxChannel| c.name_view())
}

impl DmxChannel {
    /// Looks up the [Geometry] linked by this DMX channel, anywhere in the tree of geometries.
    pub fn geometry<'s>(&self, parent_fixture_type: &'s FixtureType) -> (r: Option<&'s Geometry>)
        ensures
            match first_named(preorder(parent_fixture_type.geometries@), self.geometry@) {
                Some(i) => r == Some(&preorder(parent_fixture_type.geometries@)[i]),
                None => r is None,
            },
    {
        parent_fixture_type.nested_geometry(self.geometry.as_str())
    }

    /// Following the mode master links of the channel functions of the logical channels into
    /// `mode` reads named channels only.
    pub open spec fn lookups_ok(&self, mode: DmxMode) -> bool {
        forall|i: int| 0 <= i < self.logical_channels@.len() ==> (#[trigger] self.logical_channels@[i]).lookups_ok(mode)
    }

    /// The problems [validate](Self::validate) records: an initial function link that leads
    /// nowhere, a geometry that is not in the tree of geometries, the first logical channel
    /// name that occurs twice, then the problems of each logical channel.
    pub open spec fn validation_errors(&self, ft: FixtureType, mode: DmxMode) -> Seq<ValidationErrorView> {
        let n = Some(self.name_view());
        let o = ValidationObject::DmxChannel;
        (match self.initial_function {
            Some(node) => link_errors(o, n, self.initial_function_index() is Some, ValidationObject::ChannelFunction, node@),
            None => Seq::<ValidationErrorView>::empty(),
        }) + link_errors(
            o,
            n,
            first_named(preorder(ft.geometries@), self.geometry@) is Some,
            ValidationObject::Geometry,
            seq![self.geometry@],
        ) + duplicate_name_errors(present_names(self.logical_channels@), ValidationObject::LogicalChannel)
            + logical_errors(self.logical_channels@, ft, mode)
    }

    /// Performs validation checks on the object.
    pub fn validate(&self, parent_fixture_type: &FixtureType, parent_dmx_mode: &DmxMode, result: &mut ValidationResult)
        requires
            self.logical_channels_named(),
            self.lookups_ok(*parent_dmx_mode),
        ensures
            final(result)@ == old(result)@ + self.validation_errors(*parent_fixture_type, *parent_dmx_mode),
    {
        let o = ValidationObject::DmxChannel;
        let name = some_name(&self.name());
        let ghost start = result@;
        match &self.initial_function {
            Some(node) => {
                let found = self.initial_function().is_some();
                check_link(found, o, &name, ValidationObject::ChannelFunction, node, result);
            },
            None => {
                assert(start + Seq::<ValidationErrorView>::empty() =~= start);
            },
        }
        let found = self.geometry(parent_fixture_type).is_some();
        let mut names: Vec<Name> = Vec::new();
        names.push(self.geometry.clone());
        let link = Node::new(names);
        assert(names_view(names@) =~= seq![self.geometry@]);
        check_link(found, o, &name, ValidationObject::Geometry, &link, result);
        check_duplicate_names(&self.logical_channels, ValidationObject::LogicalChannel, result);
        let ghost mid = result@;
        let mut i: usize = 0;
        while i < self.logical_channels.len()
            invariant
                i <= self.logical_channels@.len(),
                self.logical_channels_named(),
                self.lookups_ok(*parent_dmx_mode),
                result@ == mid + logical_errors(self.logical_channels@.subrange(0, i as int), *parent_fixture_type, *parent_dmx_mode),
            decreases self.logical_channels@.len() - i,
        {
            assert(self.logical_channels@[i as int].attribute@.len() > 0);
            self.logical_channels[i].validate(parent_fixture_type, parent_dmx_mode, result);
            proof {
                assert(self.logical_channels@.subrange(0, i + 1).drop_last() =~= self.logical_channels@.subrange(0, i as int));
            }
            i = i + 1;
        }
        assert(self.logical_channels@.subrange(0, i as int) =~= self.logical_channels@);
        assert(result@ =~= old(result)@ + self.validation_errors(*parent_fixture_type, *parent_dmx_mode));
    }
}

impl DmxMode {
    /// Looks up the top level [Geometry] linked by this DMX mode.
    pub fn geometry<'s>(&self, parent_fixture_type: &'s FixtureType) -> (r: Option<&'s Geometry>)
        ensures
            match self.geometry {
                Some(g) => match first_named(parent_fixture_type.geometries@, g@) {
                    Some(i) => r == Some(&parent_fixture_type.geometries@[i]),
                    None => r is None,
                },
                None => r is None,
            },
    {
        match &self.geometry {
            Some(g) => parent_fixture_type.root_geometry(g.as_str()),
            None => None,
        }
    }

    /// The problems of the mode itself: a missing name, a geometry link that leads nowhere, and
    /// the first DMX channel, relation and macro names that occur twice.
    pub open spec fn own_errors(&self, ft: FixtureType) -> Seq<ValidationErrorView> {
        missing_name_errors(self.name, ValidationObject::DmxMode) + (match self.geometry {
            Some(g) => link_errors(
                ValidationObject::DmxMode,
                opt_name(self.name),
                first_named(ft.geometries@, g@) is Some,
                ValidationObject::Geometry,
                seq![g@],
            ),
            None => Seq::<ValidationErrorView>::empty(),
        }) + duplicate_name_errors(channel_names(self.dmx_channels@), ValidationObject::DmxChannel)
            + duplicate_name_errors(present_names(self.relations@), ValidationObject::Relation)
            + duplicate_name_errors(present_names(self.ft_macros@), ValidationObject::FtMacro)
    }

    /// The problems [validate](Self::validate) records: those of
    /// [own_errors](Self::own_errors), then the problems of each DMX channel, of each relation
    /// and of each macro.
    pub open spec fn validation_errors(&self, ft: FixtureType) -> Seq<ValidationErrorView> {
        self.own_errors(ft) + channel_errors(self.dmx_channels@, ft, *self) + relation_errors(self.relations@, *self)
            + macro_errors(self.ft_macros@, *self)
    }

    fn check_channel_names(&self, result: &mut ValidationResult)
        requires
            channels_named(self.dmx_channels@),
        ensures
            final(result)@ == old(result)@ + duplicate_name_errors(channel_names(self.dmx_channels@), ValidationObject::DmxChannel),
    {
        let mut names: Vec<Name> = Vec::new();
        let mut i: usize = 0;
        while i < self.dmx_channels.len()
            invariant
                i <= self.dmx_channels@.len(),
                channels_named(self.dmx_channels@),
                names_view(names@) == channel_names(self.dmx_channels@.subrange(0, i as int)),
            decreases self.dmx_channels@.len() - i,
        {
            assert(self.dmx_channels@[i as int].logical_channels_named());
            let n = self.dmx_channels[i].name();
            let ghost before = names@;
            names.push(n);
            proof {
                crate::values::lemma_names_view_push(before, n);
                assert(channel_names(self.dmx_channels@.subrange(0, i + 1)) =~= channel_names(
                    self.dmx_channels@.subrange(0, i as int),
                ).push(n@));
            }
            i = i + 1;
        }
        assert(self.dmx_channels@.subrange(0, i as int) =~= self.dmx_channels@);
        proof {
            lemma_present_names_of_names(names@);
        }
        check_duplicate_names(&names, ValidationObject::DmxChannel, result);
    }

    fn check_own(&self, parent_fixture_type: &FixtureType, result: &mut ValidationResult)
        requires
            channels_named(self.dmx_channels@),
        ensures
            final(result)@ == old(result)@ + self.own_errors(*parent_fixture_type),
    {
        check_missing_name(&self.name, ValidationObject::DmxMode, result);
        let ghost after_name = result@;
        match &self.geometry {
            Some(g) => {
                let found = self.geometry(parent_fixture_type).is_some();
                let mut names: Vec<Name> = Vec::new();
                names.push(g.clone());
                let link = Node::new(names);
                assert(names_view(names@) =~= seq![g@]);
                check_link(found, ValidationObject::DmxMode, &self.name, ValidationObject::Geometry, &link, result);
            },
            None => {
                assert(after_name + Seq::<ValidationErrorView>::empty() =~= after_name);
            },
        }
        self.check_channel_names(result);
        check_duplicate_names(&self.relations, ValidationObject::Relation, result);
        check_duplicate_names(&self.ft_macros, ValidationObject::FtMacro, result);
        assert(result@ =~= old(result)@ + self.own_errors(*parent_fixture_type));
    }

    /// Performs validation checks on the object.
    pub fn validate(&self, parent_fixture_type: &FixtureType, result: &mut ValidationResult)
        requires
            channels_named(self.dmx_channels@),
        ensures
            final(result)@ == old(result)@ + self.validation_errors(*parent_fixture_type),
    {
        self.check_own(parent_fixture_type, result);
        let ghost s0 = result@;
        let mut i: usize = 0;
        while i < self.dmx_channels.len()
            invariant
                i <= self.dmx_channels@.len(),
                channels_named(self.dmx_channels@),
                result@ == s0 + channel_errors(self.dmx_channels@.subrange(0, i as int), *parent_fixture_type, *self),
            decreases self.dmx_channels@.len() - i,
        {
            assert(self.dmx_channels@[i as int].logical_channels_named());
            proof {
                lemma_all_lookups_named(self.dmx_channels@);
            }
            assert(self.dmx_channels@[i as int].lookups_ok(*self));
            self.dmx_channels[i].validate(parent_fixture_type, self, result);
            proof {
                assert(self.dmx_channels@.subrange(0, i + 1).drop_last() =~= self.dmx_channels@.subrange(0, i as int));
            }
            i = i + 1;
        }
        assert(self.dmx_channels@.subrange(0, i as int) =~= self.dmx_channels@);
        let ghost s1 = result@;
        let mut j: usize = 0;
        while j < self.relations.len()
            invariant
                j <= self.relations@.len(),
                channels_named(self.dmx_channels@),
                result@ == s1 + relation_errors(self.relations@.subrange(0, j as int), *self),
            decreases self.relations@.len() - j,
        {
            proof {
                lemma_all_lookups_named(self.dmx_channels@);
            }
            assert(self.relations@[j as int].lookups_ok(*self));
            self.relations[j].validate(self, result);
            proof {
                assert(self.relations@.subrange(0, j + 1).drop_last() =~= self.relations@.subrange(0, j as int));
            }
            j = j + 1;
        }
        assert(self.relations@.subrange(0, j as int) =~= self.relations@);
        let ghost s2 = result@;
        let mut k: usize = 0;
        while k < self.ft_macros.len()
            invariant
                k <= self.ft_macros@.len(),
                channels_named(self.dmx_channels@),
                result@ == s2 + macro_errors(self.ft_macros@.subrange(0, k as int), *self),
            decreases self.ft_macros@.len() - k,
        {
            proof {
                lemma_all_lookups_named(self.dmx_channels@);
            }
            assert(self.ft_macros@[k as int].lookups_ok(*self));
            self.ft_macros[k].validate(self, result);
            proof {
                assert(self.ft_macros@.subrange(0, k + 1).drop_last() =~= self.ft_macros@.subrange(0, k as int));
            }
            k = k + 1;
        }
        assert(self.ft_macros@.subrange(0, k as int) =~= self.ft_macros@);
        assert(result@ =~= old(result)@ + self.validation_errors(*parent_fixture_type));
    }
}

/// The DMX break written as `s`: `Overwrite`, or an integer in the range of `i32`.
pub open spec fn dmx_break_from_text(s: Seq<char>) -> Option<DmxBreak> {
    if s == "Overwrite"@ {
        Some(DmxBreak::Overwrite)
    } else {
        match parse_signed(s, i32::MIN as int, i32::MAX as int) {
            Some(v) => Some(DmxBreak::Value(v as i32)),
            None => None,
        }
    }
}

/// The text form of a DMX break.
pub open spec fn dmx_break_text(b: DmxBreak) -> Seq<char> {
    match b {
        DmxBreak::Value(v) => signed_decimal(v as int),
        DmxBreak::Overwrite => "Overwrite"@,
    }
}

impl DmxBreak {
    /// Reads a DMX break from its text form: `Overwrite`, or an integer.
    pub fn parse(text: &str) -> (r: Option<DmxBreak>)
        ensures
            r == dmx_break_from_text(text@),
    {
        let v = chars_of(text);
        assert(v@.subrange(0, v@.len() as int) =~= v@);
        if range_eq(&v, 0, v.len(), "Overwrite") {
            return Some(DmxBreak::Overwrite);
        }
        match parse_i32_range(&v, 0, v.len()) {
            Some(x) => Some(DmxBreak::Value(x)),
            None => None,
        }
    }

    /// The text form of the DMX break.
    pub fn to_text(self) -> (r: String)
        ensures
            r@ == dmx_break_text(self),
    {
        match self {
            DmxBreak::Value(v) => {
                let mut out: Vec<char> = Vec::new();
                push_signed_decimal(&mut out, v as i64);
                string_from_chars(&out)
            },
            DmxBreak::Overwrite => string_from_chars(&chars_of("Overwrite")),
        }
    }
}

/// A signed decimal text starts with `-` or a digit and ends with a digit.
pub proof fn lemma_signed_decimal_shape(v: int)
    ensures
        signed_decimal(v).len() > 0,
        signed_decimal(v)[0] == '-' || is_digit(signed_decimal(v)[0]),
        is_digit(signed_decimal(v).last()),
        forall|i: int| 0 <= i < signed_decimal(v).len() ==> #[trigger] signed_decimal(v)[i] != ','
            && !is_whitespace(signed_decimal(v)[i]),
{
    let d = if v < 0 { decimal((-v) as nat) } else { decimal(v as nat) };
    lemma_decimal(if v < 0 { (-v) as nat } else { v as nat });
    assert(all_digits(d));
    let s = signed_decimal(v);
    if v < 0 {
        assert(s == seq!['-'] + d);
        assert(s.last() == d.last());
        assert forall|i: int| 0 <= i < s.len() implies #[trigger] s[i] != ',' && !is_whitespace(s[i]) by {
            if i > 0 {
                assert(s[i] == d[i - 1]);
                assert(is_digit(d[i - 1]));
            }
        }
    } else {
        assert forall|i: int| 0 <= i < s.len() implies #[trigger] s[i] != ',' && !is_whitespace(s[i]) by {
            assert(is_digit(d[i]));
        }
    }
    assert(is_digit(d[d.len() - 1]));
}

/// A DMX break printed as text and read back is the same DMX break.
pub proof fn lemma_dmx_break_text_roundtrip(b: DmxBreak)
    ensures
        dmx_break_from_text(dmx_break_text(b)) == Some(b),
{
    reveal_strlit("Overwrite");
    match b {
        DmxBreak::Value(v) => {
            lemma_signed_decimal_shape(v as int);
            assert(signed_decimal(v as int)[0] != "Overwrite"@[0]);
            lemma_parse_signed_decimal(v as int, i32::MIN as int, i32::MAX as int);
        },
        DmxBreak::Overwrite => {},
    }
}

/// The offsets of a DMX channel written as `s`: once surrounding whitespace is left out, `None`
/// or nothing for no offsets, or else integers in the range of `i32` separated by `,` (with no
/// whitespace around them). `None` when the text is none of these.
pub open spec fn offset_from_text(s: Seq<char>) -> Option<Option<Seq<i32>>> {
    let t = trim(s);
    if t == "None"@ || t.len() == 0 {
        Some(None)
    } else {
        let pieces = split(t, ',');
        if forall|i: int| 0 <= i < pieces.len() ==> #[trigger] parse_signed(pieces[i], i32::MIN as int, i32::MAX as int) is Some {
            Some(Some(pieces.map_values(|p: Seq<char>| parse_signed(p, i32::MIN as int, i32::MAX as int)->0 as i32)))
        } else {
            None
        }
    }
}

/// The text form of the offsets of a DMX channel: `None`, or the offsets separated by `,`.
pub open spec fn offset_text(offset: Option<Seq<i32>>) -> Seq<char> {
    match offset {
        None => "None"@,
        Some(v) => join(v.map_values(|x: i32| signed_decimal(x as int)), ','),
    }
}

/// Reads the offsets of a DMX channel from their text form; `None` when the text is not valid.
pub fn parse_dmx_channel_offset(text: &str) -> (r: Option<Option<Vec<i32>>>)
    ensures
        match offset_from_text(text@) {
            Some(Some(v)) => r matches Some(Some(w)) && w@ == v,
            Some(None) => r matches Some(None),
            None => r is None,
        },
{
    let v = chars_of(text);
    let (a, b) = trim_range(&v, 0, v.len());
    assert(v@.subrange(0, v@.len() as int) =~= text@);
    let t = slice_chars(&v, a, b);
    assert(t@.subrange(0, t@.len() as int) =~= t@);
    if t.len() == 0 || range_eq(&t, 0, t.len(), "None") {
        return Some(None);
    }
    let pieces = split_chars(&t, ',');
    let ghost ps = split(t@, ',');
    let mut out: Vec<i32> = Vec::new();
    let mut i: usize = 0;
    while i < pieces.len()
        invariant
            i <= pieces@.len(),
            pieces@.len() == ps.len(),
            forall|k: int| 0 <= k < pieces@.len() ==> #[trigger] pieces@[k]@ == ps[k],
            out@.len() == i,
            forall|k: int| 0 <= k < i ==> #[trigger] parse_signed(ps[k], i32::MIN as int, i32::MAX as int) == Some(out@[k] as int),
            t@ == trim(text@),
            !(t@ == "None"@ || t@.len() == 0),
            ps == split(t@, ','),
        decreases pieces@.len() - i,
    {
        let p = &pieces[i];
        assert(p@.subrange(0, p@.len() as int) =~= p@);
        match parse_i32_range(p, 0, p.len()) {
            Some(x) => {
                out.push(x);
            },
            None => {
                assert(parse_signed(ps[i as int], i32::MIN as int, i32::MAX as int) is None);
                return None;
            },
        }
        i = i + 1;
    }
    assert(out@ =~= ps.map_values(|p: Seq<char>| parse_signed(p, i32::MIN as int, i32::MAX as int)->0 as i32));
    Some(Some(out))
}

/// The text form of the offsets of a DMX channel.
pub fn dmx_channel_offset_text(offset: &Option<Vec<i32>>) -> (r: String)
    ensures
        r@ == offset_text(match offset {
            Some(v) => Some(v@),
            None => None,
        }),
{
    match offset {
        None => string_from_chars(&chars_of("None")),
        Some(values) => {
            let mut parts: Vec<Vec<char>> = Vec::new();
            let mut i: usize = 0;
            while i < values.len()
                invariant
                    i <= values@.len(),
                    parts@.map_values(|p: Vec<char>| p@) == values@.subrange(0, i as int).map_values(|x: i32| signed_decimal(x as int)),
                decreases values@.len() - i,
            {
                let mut part: Vec<char> = Vec::new();
                push_signed_decimal(&mut part, values[i] as i64);
                let ghost before = parts@;
                parts.push(part);
                proof {
                    assert(parts@.map_values(|p: Vec<char>| p@) =~= before.map_values(|p: Vec<char>| p@).push(part@));
                    assert(values@.subrange(0, i + 1).map_values(|x: i32| signed_decimal(x as int)) =~= values@.subrange(
                        0,
                        i as int,
                    ).map_values(|x: i32| signed_decimal(x as int)).push(signed_decimal(values@[i as int] as int)));
                }
                i = i + 1;
            }
            assert(values@.subrange(0, i as int) =~= values@);
            string_from_chars(&join_chars(&parts, ','))
        },
    }
}

/// Offsets printed as text and read back are the same offsets, when there are some.
pub proof fn lemma_offset_text_roundtrip(v: Seq<i32>)
    requires
        v.len() > 0,
    ensures
        offset_from_text(offset_text(Some(v))) == Some(Some(v)),
        offset_from_text(offset_text(None)) == Some(None::<Seq<i32>>),
{
    reveal_strlit("None");
    let parts = v.map_values(|x: i32| signed_decimal(x as int));
    let s = join(parts, ',');
    assert forall|k: int, i: int| 0 <= k < parts.len() && 0 <= i < parts[k].len() implies #[trigger] parts[k][i] != ',' by {
        lemma_signed_decimal_shape(v[k] as int);
    }
    assert forall|k: int| 0 <= k < parts.len() implies parts[k].len() > 0 && (parts[k][0] == '-' || is_digit(parts[k][0]))
        && is_digit(parts[k].last()) by {
        lemma_signed_decimal_shape(v[k] as int);
    }
    lemma_split_join(parts, ',');
    lemma_join_shape(parts);
    lemma_trim_plain(s);
    assert(trim(s) == s);
    assert(s.len() > 0);
    assert(s != "None"@) by {
        assert(s[0] != 'N');
        assert("None"@[0] == 'N');
    }
    assert forall|i: int| 0 <= i < parts.len() implies #[trigger] parse_signed(parts[i], i32::MIN as int, i32::MAX as int) == Some(v[i] as int) by {
        lemma_parse_signed_decimal(v[i] as int, i32::MIN as int, i32::MAX as int);
    }
    assert(parts.map_values(|p: Seq<char>| parse_signed(p, i32::MIN as int, i32::MAX as int)->0 as i32) =~= v);
    assert(trim("None"@) == "None"@) by {
        lemma_trim_plain("None"@);
    }
}

/// The text joined from decimal numbers starts with `-` or a digit and ends with a digit, when
/// there is at least one.
proof fn lemma_join_shape(parts: Seq<Seq<char>>)
    requires
        parts.len() > 0,
        forall|k: int| 0 <= k < parts.len() ==> parts[k].len() > 0 && (parts[k][0] == '-' || is_digit(parts[k][0]))
            && is_digit(parts[k].last()),
    ensures
        join(parts, ',').len() > 0,
        join(parts, ',')[0] == '-' || is_digit(join(parts, ',')[0]),
        is_digit(join(parts, ',').last()),
    decreases parts.len(),
{
    if parts.len() > 1 {
        lemma_join_shape(parts.drop_last());
        let head = join(parts.drop_last(), ',').push(',');
        assert(join(parts, ',') == head + parts.last());
        assert(join(parts, ',')[0] == head[0]);
    }
}

/// The highlight value of a DMX channel written as `s`: `None`, or a DMX value.
pub open spec fn highlight_from_text(s: Seq<char>) -> Option<Option<(u8, u64, bool)>> {
    if s == "None"@ {
        Some(None)
    } else {
        match dmx_value_from_text(s) {
            Some(d) => Some(Some(d)),
            None => None,
        }
    }
}

/// The text form of the highlight value of a DMX channel.
pub open spec fn highlight_text(h: Option<(u8, u64, bool)>) -> Seq<char> {
    match h {
        None => "None"@,
        Some(d) => dmx_value_text(d),
    }
}

/// Reads the highlight value of a DMX channel from its text form; `None` when the text is not
/// valid.
pub fn parse_dmx_channel_highlight(text: &str) -> (r: Option<Option<DmxValue>>)
    ensures
        match highlight_from_text(text@) {
            Some(Some(d)) => r matches Some(Some(v)) && v@ == d,
            Some(None) => r matches Some(None),
            None => r is None,
        },
{
    let v = chars_of(text);
    assert(v@.subrange(0, v@.len() as int) =~= v@);
    if range_eq(&v, 0, v.len(), "None") {
        return Some(None);
    }
    match DmxValue::parse(text) {
        Some(d) => Some(Some(d)),
        None => None,
    }
}

/// The text form of the highlight value of a DMX channel.
pub fn dmx_channel_highlight_text(highlight: Option<DmxValue>) -> (r: String)
    ensures
        r@ == highlight_text(match highlight {
            Some(v) => Some(v@),
            None => None,
        }),
{
    match highlight {
        None => string_from_chars(&chars_of("None")),
        Some(v) => v.to_text(),
    }
}

/// A highlight value printed as text and read back is the same value.
pub proof fn lemma_highlight_text_roundtrip(h: Option<(u8, u64, bool)>)
    requires
        h matches Some(d) ==> dmx_value_fits(d.0 as nat, d.1 as nat),
    ensures
        highlight_from_text(highlight_text(h)) == Some(h),
{
    reveal_strlit("None");
    if let Some(d) = h {
        crate::values::lemma_dmx_value_text_roundtrip(d);
        lemma_decimal(d.1 as nat);
        assert(dmx_value_text(d)[0] == decimal(d.1 as nat)[0]);
        assert(is_digit(decimal(d.1 as nat)[0]));
        assert(dmx_value_text(d) != "None"@) by {
            assert("None"@[0] == 'N');
        }
    }
}

/// The snap setting of a logical channel written as `s`: `Yes` or `On` for snapping, `No` or
/// `Off` for fading.
pub open spec fn snap_from_text(s: Seq<char>) -> Option<bool> {
    if s == "Yes"@ || s == "On"@ {
        Some(true)
    } else if s == "No"@ || s == "Off"@ {
        Some(false)
    } else {
        None
    }
}

/// The text form of a yes-or-no setting: `Yes` or `No`.
pub open spec fn yes_no_text(b: bool) -> Seq<char> {
    if b {
        "Yes"@
    } else {
        "No"@
    }
}

/// Reads the snap setting of a logical channel from its text form; `None` when the text is not
/// valid.
pub fn parse_logical_channel_snap(text: &str) -> (r: Option<bool>)
    ensures
        r == snap_from_text(text@),
{
    let v = chars_of(text);
    assert(v@.subrange(0, v@.len() as int) =~= v@);
    if range_eq(&v, 0, v.len(), "Yes") || range_eq(&v, 0, v.len(), "On") {
        Some(true)
    } else if range_eq(&v, 0, v.len(), "No") || range_eq(&v, 0, v.len(), "Off") {
        Some(false)
    } else {
        None
    }
}

/// The text form of the snap setting of a logical channel.
pub fn logical_channel_snap_text(snap: bool) -> (r: &'static str)
    ensures
        r@ == yes_no_text(snap),
{
    if snap {
        "Yes"
    } else {
        "No"
    }
}

/// Whether the snap setting is left out of a written description: it is, when it has its
/// default value, fading.
pub fn skip_serializing_logical_channel_snap(value: &bool) -> (r: bool)
    ensures
        r == !*value,
{
    !*value
}

/// A snap setting printed as text and read back is the same setting.
pub proof fn lemma_snap_text_roundtrip(b: bool)
    ensures
        snap_from_text(yes_no_text(b)) == Some(b),
{
    reveal_strlit("Yes");
    reveal_strlit("No");
    reveal_strlit("On");
    reveal_strlit("Off");
    if !b {
        assert("No"@ != "Yes"@) by {
            assert("No"@.len() != "Yes"@.len());
        }
        assert("No"@ != "On"@) by {
            assert("No"@[0] != "On"@[0]);
        }
    }
}

/// The wheel slot index of a channel set written as `s`: the text is an integer in the range of
/// `i32` that counts slots from 1; 0 or less stands for no slot.
pub open spec fn wheel_slot_index_from_text(s: Seq<char>) -> Option<Option<i32>> {
    match parse_signed(s, i32::MIN as int, i32::MAX as int) {
        Some(v) => Some(if v <= 0 {
            None
        } else {
            Some((v - 1) as i32)
        }),
        None => None,
    }
}

/// The number written for a wheel slot index: 0 for no slot, else the index counted from 1
/// (negative indices count as the first slot).
pub open spec fn wheel_slot_index_value(index: Option<i32>) -> int {
    match index {
        None => 0,
        Some(v) => if v < 0 {
            1
        } else {
            v + 1
        },
    }
}

/// Reads the wheel slot index of a channel set from its text form; `None` when the text is not
/// an integer.
pub fn parse_wheel_slot_index(text: &str) -> (r: Option<Option<i32>>)
    ensures
        r == wheel_slot_index_from_text(text@),
{
    let v = chars_of(text);
    assert(v@.subrange(0, v@.len() as int) =~= v@);
    match parse_i32_range(&v, 0, v.len()) {
        Some(x) => Some(if x <= 0 {
            None
        } else {
            Some(x - 1)
        }),
        None => None,
    }
}

/// The text form of the wheel slot index of a channel set.
pub fn wheel_slot_index_text(index: Option<i32>) -> (r: String)
    requires
        index matches Some(v) ==> v < i32::MAX,
    ensures
        r@ == signed_decimal(wheel_slot_index_value(index)),
{
    let value: i32 = match index {
        None => 0,
        Some(v) => if v < 0 {
            1
        } else {
            v + 1
        },
    };
    let mut out: Vec<char> = Vec::new();
    push_signed_decimal(&mut out, value as i64);
    string_from_chars(&out)
}

/// A wheel slot index printed as text and read back is the same index, when it is not negative.
pub proof fn lemma_wheel_slot_index_text_roundtrip(index: Option<i32>)
    requires
        index matches Some(v) ==> 0 <= v < i32::MAX,
    ensures
        wheel_slot_index_from_text(signed_decimal(wheel_slot_index_value(index))) == Some(index),
{
    lemma_parse_signed_decimal(wheel_slot_index_value(index), i32::MIN as int, i32::MAX as int);
}

/// A relation that validates without problems has a name, and its master and follower links
/// both lead to objects of the mode.
pub proof fn lemma_valid_relation_resolves(relation: Relation, mode: DmxMode)
    requires
        relation.validation_errors(mode).len() == 0,
    ensures
        relation.name is Some,
        channel_link(mode, relation.master@) is Some,
        function_link(mode, relation.follower@) is Some,
{
}

proof fn lemma_value_errors_empty(mode: DmxMode, name: Option<Seq<char>>, values: Seq<MacroDmxValue>)
    requires
        macro_value_errors(mode, name, values).len() == 0,
    ensures
        forall|i: int| 0 <= i < values.len() ==> channel_link(mode, (#[trigger] values[i]).dmx_channel@) is Some,
    decreases values.len(),
{
    if values.len() > 0 {
        lemma_value_errors_empty(mode, name, values.drop_last());
        assert forall|i: int| 0 <= i < values.len() implies channel_link(mode, (#[trigger] values[i]).dmx_channel@) is Some by {
            if i < values.len() - 1 {
                assert(values[i] == values.drop_last()[i]);
            }
        }
    }
}

proof fn lemma_step_errors_empty(mode: DmxMode, name: Option<Seq<char>>, steps: Seq<MacroDmxStep>)
    requires
        macro_step_errors(mode, name, steps).len() == 0,
    ensures
        forall|i: int, k: int| 0 <= i < steps.len() && 0 <= k < steps[i].values@.len()
            ==> channel_link(mode, (#[trigger] steps[i].values@[k]).dmx_channel@) is Some,
    decreases steps.len(),
{
    if steps.len() > 0 {
        lemma_step_errors_empty(mode, name, steps.drop_last());
        lemma_value_errors_empty(mode, name, steps.last().values@);
        assert forall|i: int, k: int| 0 <= i < steps.len() && 0 <= k < steps[i].values@.len()
            implies channel_link(mode, (#[trigger] steps[i].values@[k]).dmx_channel@) is Some by {
            if i < steps.len() - 1 {
                assert(steps[i] == steps.drop_last()[i]);
            }
        }
    }
}

proof fn lemma_dmx_errors_empty(mode: DmxMode, name: Option<Seq<char>>, sequences: Seq<MacroDmx>)
    requires
        macro_dmx_errors(mode, name, sequences).len() == 0,
    ensures
        forall|d: int, i: int, k: int|
            0 <= d < sequences.len() && 0 <= i < sequences[d].steps@.len() && 0 <= k < sequences[d].steps@[i].values@.len()
            ==> channel_link(mode, (#[trigger] sequences[d].steps@[i].values@[k]).dmx_channel@) is Some,
    decreases sequences.len(),
{
    if sequences.len() > 0 {
        lemma_dmx_errors_empty(mode, name, sequences.drop_last());
        lemma_step_errors_empty(mode, name, sequences.last().steps@);
        assert forall|d: int, i: int, k: int|
            0 <= d < sequences.len() && 0 <= i < sequences[d].steps@.len() && 0 <= k < sequences[d].steps@[i].values@.len()
            implies channel_link(mode, (#[trigger] sequences[d].steps@[i].values@[k]).dmx_channel@) is Some by {
            if d < sequences.len() - 1 {
                assert(sequences[d] == sequences.drop_last()[d]);
            }
        }
    }
}

/// A macro that validates without problems has a name, its channel function link, if any,
/// leads to a channel function of the mode, and every DMX value of every step of every sequence
/// links a DMX channel of the mode.
pub proof fn lemma_valid_macro_resolves(ft_macro: FtMacro, mode: DmxMode)
    requires
        ft_macro.validation_errors(mode).len() == 0,
    ensures
        ft_macro.name is Some,
        ft_macro.channel_function matches Some(link) ==> function_link(mode, link@) is Some,
        forall|d: int, i: int, k: int|
            0 <= d < ft_macro.dmx@.len() && 0 <= i < ft_macro.dmx@[d].steps@.len()
                && 0 <= k < ft_macro.dmx@[d].steps@[i].values@.len()
            ==> channel_link(mode, (#[trigger] ft_macro.dmx@[d].steps@[i].values@[k]).dmx_channel@) is Some,
{
    lemma_dmx_errors_empty(mode, opt_name(ft_macro.name), ft_macro.dmx@);
}

/// A channel function that validates without problems has a name, and each of its links
/// leads to an object of the fixture type or of the mode.
pub proof fn lemma_valid_channel_function_resolves(function: ChannelFunction, ft: FixtureType, mode: DmxMode)
    requires
        function.validation_errors(ft, mode).len() == 0,
    ensures
        function.name is Some,
        attribute_link(ft, function.attribute@) is Some,
        function.wheel is Some ==> opt_link(ft.wheels@, function.wheel) is Some,
        function.emitter is Some ==> opt_link(ft.physical_descriptions.emitters@, function.emitter) is Some,
        function.filter is Some ==> opt_link(ft.physical_descriptions.filters@, function.filter) is Some,
        function.color_space is Some ==> color_space_link(ft.physical_descriptions, function.color_space) is Some,
        function.gamut is Some ==> opt_link(ft.physical_descriptions.gamuts@, function.gamut) is Some,
        function.mode_master matches Some(m) ==> mode_master_link(mode, m.node@) is Some,
        function.dmx_profile is Some ==> opt_link(ft.physical_descriptions.dmx_profiles@, function.dmx_profile) is Some,
{
    assert(function.own_errors(ft, mode).len() == 0);
    assert(function.physical_link_errors(ft).len() == 0);
}

/// A DMX channel that validates without problems has an initial function that is found, and
/// its geometry is in the tree of geometries of the fixture type.
pub proof fn lemma_valid_channel_resolves(channel: DmxChannel, ft: FixtureType, mode: DmxMode)
    requires
        channel.validation_errors(ft, mode).len() == 0,
    ensures
        channel.initial_function is Some ==> channel.initial_function_index() is Some,
        first_named(preorder(ft.geometries@), channel.geometry@) is Some,
{
}

/// The channel function a DMX channel activates by default. Without an initial function link it
/// is the first channel function of the first logical channel, and there is none when the first
/// logical channel has no channel function. With a link `channel.logical.function` naming this
/// channel, it is the first function named `function` of the first logical channel named
/// `logical`, and there is none when no such pair exists.
pub proof fn lemma_initial_function_chosen(ch: DmxChannel)
    ensures
        match ch.initial_function_index() {
            Some((l, f)) => {
                &&& 0 <= l < ch.logical_channels@.len()
                &&& 0 <= f < ch.logical_channels@[l].channel_functions@.len()
                &&& match ch.initial_function {
                    None => l == 0 && f == 0,
                    Some(node) => {
                        &&& node@.len() == 3
                        &&& node@[0] == ch.name_view()
                        &&& ch.logical_channels@[l].name_view() == Some(node@[1])
                        &&& ch.logical_channels@[l].channel_functions@[f].name_view() == Some(node@[2])
                        &&& forall|j: int| 0 <= j < l ==> (#[trigger] ch.logical_channels@[j]).name_view() != Some(node@[1])
                        &&& forall|k: int| 0 <= k < f ==> (#[trigger] ch.logical_channels@[l].channel_functions@[k]).name_view() != Some(node@[2])
                    },
                }
            },
            None => match ch.initial_function {
                None => ch.logical_channels@.len() == 0 || ch.logical_channels@[0].channel_functions@.len() == 0,
                Some(node) => node@.len() == 3 && node@[0] == ch.name_view() ==> forall|l: int|
                    0 <= l < ch.logical_channels@.len() && (#[trigger] ch.logical_channels@[l]).name_view() == Some(node@[1])
                        && (forall|j: int| 0 <= j < l ==> (#[trigger] ch.logical_channels@[j]).name_view() != Some(node@[1]))
                        ==> forall|k: int| 0 <= k < ch.logical_channels@[l].channel_functions@.len()
                        ==> (#[trigger] ch.logical_channels@[l].channel_functions@[k]).name_view() != Some(node@[2]),
            },
        },
{
    match ch.initial_function {
        None => {},
        Some(node) => {
            let n = node@;
            if n.len() == 3 && n[0] == ch.name_view() {
                let lcs = ch.logical_channels@;
                lemma_first_named(lcs, n[1]);
                lemma_first_named_is_first(lcs, n[1]);
                match first_named(lcs, n[1]) {
                    Some(l) => {
                        let fs = lcs[l].channel_functions@;
                        lemma_first_named(fs, n[2]);
                        lemma_first_named_is_first(fs, n[2]);
                        assert forall|l2: int|
                            0 <= l2 < lcs.len() && (#[trigger] lcs[l2]).name_view() == Some(n[1])
                                && (forall|j: int| 0 <= j < l2 ==> (#[trigger] lcs[j]).name_view() != Some(n[1]))
                            implies l2 == l by {
                            if l2 < l {
                            } else if l < l2 {
                                assert(lcs[l].name_view() != Some(n[1]));
                            }
                        }
                    },
                    None => {},
                }
            }
        },
    }
}

} // verus!
