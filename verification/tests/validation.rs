use gdtf::attribute::{Attribute, AttributeDefinitions, SubPhysicalUnit};
use gdtf::description::Description;
use gdtf::dmx_mode::{
    ChannelFunction, ChannelSet, DmxBreak, DmxChannel, DmxMode, FtMacro, LogicalChannel,
    LogicalChannelMaster, MacroDmx, MacroDmxStep, MacroDmxValue, ModeMaster, ModeMasterNode,
    Relation, RelationType, SubChannelSet,
};
use gdtf::fixture_type::FixtureType;
use gdtf::geometry::Geometry;
use gdtf::model::{Model, PrimitiveType};
use gdtf::physical_descriptions::{Filter, PhysicalDescriptions};
use gdtf::resource::{Resource, ResourceMap};
use gdtf::validation::{ValidationErrorType, ValidationObject, ValidationResult};
use gdtf::values::{ColorCie, DmxValue, Name, Node, Version};
use gdtf::wheel::{Wheel, WheelSlot, WheelSlotOptic};
use gdtf::GdtfFile;

fn name(s: &str) -> Name {
    Name::new(s.to_string()).expect("valid name")
}

fn node(s: &str) -> Node {
    Node::parse(s)
}

fn function(n: &str, attribute: &str) -> ChannelFunction {
    ChannelFunction {
        name: Some(name(n)),
        attribute: node(attribute),
        original_attribute: String::new(),
        dmx_from: DmxValue::default(),
        default: DmxValue::default(),
        physical_from: 0f64.to_bits(),
        physical_to: 1f64.to_bits(),
        real_fade: 0,
        real_acceleration: 0,
        wheel: None,
        emitter: None,
        filter: None,
        color_space: None,
        gamut: None,
        mode_master: None,
        dmx_profile: None,
        min: None,
        max: None,
        custom_name: None,
        channel_sets: vec![],
        sub_channel_sets: vec![],
    }
}

fn logical(attribute: &str, functions: Vec<ChannelFunction>) -> LogicalChannel {
    LogicalChannel {
        attribute: node(attribute),
        snap: false,
        master: LogicalChannelMaster::NoMaster,
        mib_fade: 0,
        dmx_change_time_limit: 0,
        channel_functions: functions,
    }
}

fn channel(geometry: &str, logicals: Vec<LogicalChannel>) -> DmxChannel {
    DmxChannel {
        dmx_break: DmxBreak::default(),
        offset: Some(vec![1]),
        initial_function: None,
        highlight: None,
        geometry: name(geometry),
        logical_channels: logicals,
    }
}

fn mode(n: &str, channels: Vec<DmxChannel>) -> DmxMode {
    DmxMode {
        name: Some(name(n)),
        description: String::new(),
        geometry: Some(name("Base")),
        dmx_channels: channels,
        relations: vec![],
        ft_macros: vec![],
    }
}

fn geometry(n: &str, children: Vec<Geometry>) -> Geometry {
    Geometry { name: Some(name(n)), children }
}

fn fixture(n: &str) -> FixtureType {
    FixtureType {
        name: Some(name(n)),
        short_name: String::new(),
        long_name: String::new(),
        manufacturer: "Generic".to_string(),
        description: String::new(),
        fixture_type_id: uuid::Uuid::nil(),
        thumbnail: None,
        thumbnail_offset_x: 0,
        thumbnail_offset_y: 0,
        ref_tf: None,
        can_have_children: true,
        attribute_definitions: AttributeDefinitions {
            attributes: vec![
                Attribute { name: Some(name("Dimmer")), subphysical_units: vec![] },
                Attribute {
                    name: Some(name("Pan")),
                    subphysical_units: vec![SubPhysicalUnit { type_: "Duration".to_string() }],
                },
            ],
        },
        wheels: vec![],
        physical_descriptions: PhysicalDescriptions::new(),
        models: vec![],
        geometries: vec![geometry("Base", vec![geometry("Yoke", vec![geometry("Head", vec![])])])],
        dmx_modes: vec![],
    }
}

fn resources(paths: &[&str]) -> ResourceMap {
    ResourceMap::new(paths.iter().map(|p| Resource::new(p.to_string(), 10)).collect())
}

/// The errors of a result, each as its object, the name of the object and a short text of the
/// problem.
fn errors(result: &ValidationResult) -> Vec<(ValidationObject, Option<String>, String)> {
    result
        .errors
        .iter()
        .map(|e| {
            let kind = match &e.error_type {
                ValidationErrorType::MissingName => "MissingName".to_string(),
                ValidationErrorType::DuplicateName => "DuplicateName".to_string(),
                ValidationErrorType::LinkNotFound(o, n) => format!("LinkNotFound({:?}, {})", o, n.to_text()),
                ValidationErrorType::InvalidVersion(v) => format!("InvalidVersion({})", v.to_text()),
                ValidationErrorType::MissingLuminousIntensity => "MissingLuminousIntensity".to_string(),
                ValidationErrorType::MissingTransmission => "MissingTransmission".to_string(),
                ValidationErrorType::EmptyPolygon => "EmptyPolygon".to_string(),
                ValidationErrorType::EmptyProfile => "EmptyProfile".to_string(),
                ValidationErrorType::DuplicatePoint(p) => format!("DuplicatePoint({})", f64::from_bits(*p)),
                ValidationErrorType::DuplicateCriSample(c) => format!("DuplicateCriSample({})", c.to_text()),
                ValidationErrorType::MediaNotFound(m) => format!("MediaNotFound({})", m),
                ValidationErrorType::ThumbnailNotFound(t) => format!("ThumbnailNotFound({})", t),
            };
            (e.object, e.name.clone(), kind)
        })
        .collect()
}

fn validate(fixture_type: FixtureType, files: &[&str]) -> Vec<(ValidationObject, Option<String>, String)> {
    let mut description = Description::new();
    description.fixture_types.push(fixture_type);
    let file = GdtfFile { description, resources: resources(files) };
    errors(&file.validate())
}

fn some(s: &str) -> Option<String> {
    Some(s.to_string())
}

#[test]
fn new_description_is_valid() {
    let d = Description::new();
    assert_eq!(d.data_version, Version { major: 1, minor: 2 });
    assert!(d.fixture_types.is_empty());
    let mut result = ValidationResult::new();
    d.validate(&resources(&[]), &mut result);
    assert!(result.is_empty());
    assert!(Description::default().fixture_types.is_empty());
}

#[test]
fn unsupported_version_and_duplicate_fixture_types() {
    let mut d = Description::new();
    d.data_version = Version { major: 1, minor: 3 };
    d.fixture_types.push(fixture("Spot"));
    d.fixture_types.push(fixture("Spot"));
    let mut result = ValidationResult::new();
    d.validate(&resources(&[]), &mut result);
    assert_eq!(
        errors(&result),
        vec![
            (ValidationObject::Description, None, "InvalidVersion(1.3)".to_string()),
            (ValidationObject::FixtureType, some("Spot"), "DuplicateName".to_string()),
        ]
    );
    assert_eq!(d.fixture_type("Spot").map(|f| f.manufacturer.as_str()), Some("Generic"));
    assert!(d.fixture_type("Wash").is_none());
}

#[test]
fn consistent_fixture_type_is_valid() {
    let mut ft = fixture("Spot");
    ft.dmx_modes.push(mode("Mode 1", vec![channel("Head", vec![logical("Dimmer", vec![function("Dimmer", "Dimmer")])])]));
    assert_eq!(validate(ft, &[]), vec![]);
}

#[test]
fn fixture_type_thumbnail_and_names() {
    let mut ft = fixture("Spot");
    ft.name = None;
    ft.thumbnail = Some("thumb".to_string());
    ft.geometries.push(geometry("Other", vec![geometry("Yoke", vec![])]));
    assert_eq!(
        validate(ft, &["thumb.jpg"]),
        vec![
            (ValidationObject::FixtureType, None, "MissingName".to_string()),
            (ValidationObject::FixtureType, None, "ThumbnailNotFound(thumb)".to_string()),
            (ValidationObject::Geometry, some("Yoke"), "DuplicateName".to_string()),
        ]
    );
    let mut found = fixture("Spot");
    found.thumbnail = Some("thumb".to_string());
    assert_eq!(validate(found, &["thumb.png"]), vec![]);
}

#[test]
fn fixture_type_lookups() {
    let mut ft = fixture("Spot");
    ft.wheels.push(Wheel { name: Some(name("Gobo")), slots: vec![] });
    ft.models.push(Model {
        name: Some(name("Body")),
        length: 0,
        width: 0,
        height: 0,
        primitive_type: PrimitiveType::default(),
        file: None,
        svg_offset_x: 0,
        svg_offset_y: 0,
        svg_side_offset_x: 0,
        svg_side_offset_y: 0,
        svg_front_offset_x: 0,
        svg_front_offset_y: 0,
    });
    ft.dmx_modes.push(mode("Basic", vec![]));
    assert!(ft.wheel("Gobo").is_some());
    assert!(ft.wheel("Color").is_none());
    assert_eq!(ft.model("Body").map(|m| m.primitive_type), Some(PrimitiveType::Undefined));
    assert!(ft.dmx_mode("Basic").is_some());
    assert!(ft.root_geometry("Base").is_some());
    assert!(ft.root_geometry("Head").is_none());
    assert_eq!(ft.nested_geometry("Head").and_then(|g| g.name.as_ref()).map(|n| n.as_str()), Some("Head"));
    assert!(ft.nested_geometry("Lens").is_none());
}

#[test]
fn wheel_slots_media_and_filters() {
    let mut ft = fixture("Spot");
    ft.physical_descriptions.filters.push(Filter { name: Some(name("Red")), color: ColorCie::white(), measurements: vec![] });
    let slot = |n: Option<&str>, optic: WheelSlotOptic, media: Option<&str>| WheelSlot {
        name: n.map(name),
        optic,
        media_name: media.map(|m| m.to_string()),
        facets: vec![],
        animation_system: None,
    };
    ft.wheels.push(Wheel {
        name: None,
        slots: vec![
            slot(Some("Open"), WheelSlotOptic::default(), None),
            slot(Some("G1"), WheelSlotOptic::Filter(node("Red")), Some("gobo1")),
            slot(Some("G1"), WheelSlotOptic::Filter(node("Blue")), Some("gobo2")),
            slot(None, WheelSlotOptic::Color(ColorCie::white()), None),
        ],
    });
    let wheel = &ft.wheels[0];
    assert!(wheel.slot("G1").is_some());
    assert!(wheel.slots[1].filter(&ft).is_some());
    assert!(wheel.slots[2].filter(&ft).is_none());
    assert!(wheel.slots[0].filter(&ft).is_none());
    assert_eq!(
        validate(ft, &["wheels/gobo1.png"]),
        vec![
            (ValidationObject::Wheel, None, "MissingName".to_string()),
            (ValidationObject::WheelSlot, some("G1"), "DuplicateName".to_string()),
            (ValidationObject::WheelSlot, some("G1"), "MediaNotFound(gobo2)".to_string()),
            (ValidationObject::WheelSlot, some("G1"), "LinkNotFound(Filter, Blue)".to_string()),
            (ValidationObject::WheelSlot, None, "MissingName".to_string()),
        ]
    );
}

#[test]
fn models_need_a_file() {
    let model = |n: &str, file: Option<&str>| Model {
        name: Some(name(n)),
        length: 0,
        width: 0,
        height: 0,
        primitive_type: PrimitiveType::Head,
        file: file.map(|f| f.to_string()),
        svg_offset_x: 0,
        svg_offset_y: 0,
        svg_side_offset_x: 0,
        svg_side_offset_y: 0,
        svg_front_offset_x: 0,
        svg_front_offset_y: 0,
    };
    let mut ft = fixture("Spot");
    ft.models.push(model("A", Some("a")));
    ft.models.push(model("B", Some("b")));
    ft.models.push(model("C", Some("c")));
    ft.models.push(model("D", Some("d")));
    ft.models.push(model("D", None));
    assert_eq!(
        validate(ft, &["models/svg_front/a.svg", "models/gltf/b.glb", "models/3ds/c.3ds", "models/gltf_low/d.glb"]),
        vec![
            (ValidationObject::Model, some("D"), "DuplicateName".to_string()),
            (ValidationObject::Model, some("D"), "MediaNotFound(d)".to_string()),
        ]
    );
}

#[test]
fn dmx_channel_name_and_initial_function() {
    let mut ch = channel("Yoke", vec![logical("Pan", vec![function("Pan", "Pan"), function("PanFast", "Pan")])]);
    assert_eq!(ch.name().as_str(), "Yoke_Pan");
    let (l, f) = ch.initial_function().unwrap();
    assert_eq!(l.name().as_str(), "Pan");
    assert_eq!(f.name.as_ref().unwrap().as_str(), "Pan");
    ch.initial_function = Some(node("Yoke_Pan.Pan.PanFast"));
    assert_eq!(ch.initial_function().unwrap().1.name.as_ref().unwrap().as_str(), "PanFast");
    ch.initial_function = Some(node("Other.Pan.PanFast"));
    assert!(ch.initial_function().is_none());
    ch.initial_function = Some(node("Yoke_Pan.Pan"));
    assert!(ch.initial_function().is_none());
    let empty = channel("Base", vec![]);
    assert_eq!(empty.name().as_str(), "Base_");
    assert!(empty.initial_function().is_none());
}

#[test]
fn dmx_mode_links_and_duplicates() {
    let mut ft = fixture("Spot");
    let mut bad_geometry = mode("M", vec![
        channel("Head", vec![logical("Dimmer", vec![function("Dimmer", "Dimmer")])]),
        channel("Head", vec![logical("Dimmer", vec![function("Dimmer", "Dimmer")])]),
        channel("Lens", vec![logical("Pan", vec![function("Pan", "Pan")])]),
    ]);
    bad_geometry.geometry = Some(name("Head"));
    bad_geometry.dmx_channels[2].initial_function = Some(node("Lens_Pan.Pan.Missing"));
    ft.dmx_modes.push(bad_geometry);
    ft.dmx_modes.push(mode("M", vec![]));
    let found = validate(ft, &[]);
    assert_eq!(
        found,
        vec![
            (ValidationObject::DmxMode, some("M"), "DuplicateName".to_string()),
            (ValidationObject::DmxMode, some("M"), "LinkNotFound(Geometry, Head)".to_string()),
            (ValidationObject::DmxChannel, some("Head_Dimmer"), "DuplicateName".to_string()),
            (ValidationObject::DmxChannel, some("Lens_Pan"), "LinkNotFound(ChannelFunction, Lens_Pan.Pan.Missing)".to_string()),
            (ValidationObject::DmxChannel, some("Lens_Pan"), "LinkNotFound(Geometry, Lens)".to_string()),
        ]
    );
}

#[test]
fn logical_channels_and_channel_functions() {
    let mut ft = fixture("Spot");
    ft.wheels.push(Wheel { name: Some(name("Gobo")), slots: vec![] });
    let mut f = function("Color", "Color");
    f.wheel = Some(node("Gobo"));
    f.emitter = Some(node("LED"));
    f.filter = Some(node("Red"));
    f.color_space = Some(node("sRGB"));
    f.gamut = Some(node("Wide"));
    f.mode_master = Some(ModeMasterNode { node: node("Head_Dimmer"), from: DmxValue::default(), to: DmxValue::new_u8(255, false) });
    f.dmx_profile = Some(node("Curve"));
    let mut nameless = function("x", "Dimmer");
    nameless.name = None;
    nameless.mode_master = Some(ModeMasterNode { node: node("Head_Dimmer.Dimmer.Nothing"), from: DmxValue::default(), to: DmxValue::default() });
    let channels = vec![
        channel("Head", vec![logical("Dimmer", vec![function("Dimmer", "Dimmer"), function("Dimmer", "Dimmer")])]),
        channel("Yoke", vec![logical("Color", vec![f]), logical("Color", vec![nameless])]),
    ];
    ft.dmx_modes.push(mode("M", channels));
    assert_eq!(
        validate(ft, &[]),
        vec![
            (ValidationObject::ChannelFunction, some("Dimmer"), "DuplicateName".to_string()),
            (ValidationObject::LogicalChannel, some("Color"), "DuplicateName".to_string()),
            (ValidationObject::LogicalChannel, some("Color"), "LinkNotFound(Attribute, Color)".to_string()),
            (ValidationObject::ChannelFunction, some("Color"), "LinkNotFound(Attribute, Color)".to_string()),
            (ValidationObject::ChannelFunction, some("Color"), "LinkNotFound(Emitter, LED)".to_string()),
            (ValidationObject::ChannelFunction, some("Color"), "LinkNotFound(Filter, Red)".to_string()),
            (ValidationObject::ChannelFunction, some("Color"), "LinkNotFound(ColorSpace, sRGB)".to_string()),
            (ValidationObject::ChannelFunction, some("Color"), "LinkNotFound(Gamut, Wide)".to_string()),
            (ValidationObject::ChannelFunction, some("Color"), "LinkNotFound(DmxProfile, Curve)".to_string()),
            (ValidationObject::LogicalChannel, some("Color"), "LinkNotFound(Attribute, Color)".to_string()),
            (ValidationObject::ChannelFunction, None, "MissingName".to_string()),
            (ValidationObject::ChannelFunction, None, "LinkNotFound(ModeMaster, Head_Dimmer.Dimmer.Nothing)".to_string()),
        ]
    );
}

#[test]
fn channel_sets_and_sub_channel_sets() {
    let mut ft = fixture("Spot");
    let slot = WheelSlot { name: Some(name("Open")), optic: WheelSlotOptic::default(), media_name: None, facets: vec![], animation_system: None };
    ft.wheels.push(Wheel { name: Some(name("Gobo")), slots: vec![slot] });
    let mut f = function("Gobo", "Dimmer");
    f.wheel = Some(node("Gobo"));
    let set = |n: &str, index: Option<i32>| ChannelSet {
        name: Some(name(n)),
        dmx_from: DmxValue::default(),
        physical_from: None,
        physical_to: Some(2f64.to_bits()),
        wheel_slot_index: index,
    };
    f.channel_sets = vec![set("Open", Some(0)), set("Far", Some(4)), set("Neg", Some(-1)), set("Free", None)];
    f.sub_channel_sets = vec![
        SubChannelSet { name: Some(name("Fast")), physical_from: 0, physical_to: 0, sub_physical_unit: node("Pan.Duration"), dmx_profile: None },
        SubChannelSet { name: None, physical_from: 0, physical_to: 0, sub_physical_unit: node("Pan.Speed"), dmx_profile: Some(node("P")) },
    ];
    {
        let wheel = f.wheel(&ft).unwrap();
        assert!(f.channel_sets[0].wheel_slot(wheel).is_some());
        assert!(f.channel_sets[1].wheel_slot(wheel).is_none());
        assert_eq!(f64::from_bits(f.channel_sets[0].physical_from(&f)), 0.0);
        assert_eq!(f64::from_bits(f.channel_sets[0].physical_to(&f)), 2.0);
        assert!(f.sub_channel_sets[0].sub_physical_unit(&ft).is_some());
        assert!(f.sub_channel_sets[1].sub_physical_unit(&ft).is_none());
        assert!(f.channel_set("Far").is_some());
        assert!(f.sub_channel_set("Fast").is_some());
    }
    ft.dmx_modes.push(mode("M", vec![channel("Head", vec![logical("Dimmer", vec![f])])]));
    assert_eq!(
        validate(ft, &[]),
        vec![
            (ValidationObject::ChannelSet, some("Far"), "LinkNotFound(WheelSlot, 4)".to_string()),
            (ValidationObject::ChannelSet, some("Neg"), "LinkNotFound(WheelSlot, -1)".to_string()),
            (ValidationObject::SubChannelSet, None, "MissingName".to_string()),
            (ValidationObject::SubChannelSet, None, "LinkNotFound(SubPhysicalUnit, Pan.Speed)".to_string()),
            (ValidationObject::SubChannelSet, None, "LinkNotFound(DmxProfile, P)".to_string()),
        ]
    );
}

#[test]
fn channel_function_defaults_for_min_and_max() {
    let mut f = function("F", "Dimmer");
    assert_eq!(f64::from_bits(f.min()), 0.0);
    assert_eq!(f64::from_bits(f.max()), 1.0);
    f.min = Some(5f64.to_bits());
    f.max = Some(7f64.to_bits());
    assert_eq!(f64::from_bits(f.min()), 5.0);
    assert_eq!(f64::from_bits(f.max()), 7.0);
}

#[test]
fn relations_and_macros() {
    let mut ft = fixture("Spot");
    let mut m = mode("M", vec![channel("Head", vec![logical("Dimmer", vec![function("Dimmer", "Dimmer")])])]);
    m.relations = vec![
        Relation { name: Some(name("R")), master: node("Head_Dimmer"), follower: node("Head_Dimmer.Dimmer.Dimmer"), type_: RelationType::Multiply },
        Relation { name: None, master: node("Head_Dimmer.Dimmer"), follower: node("Head_Dimmer.Dimmer"), type_: RelationType::Override },
    ];
    m.ft_macros = vec![FtMacro {
        name: Some(name("Reset")),
        channel_function: Some(node("Head_Dimmer.Dimmer.Reset")),
        dmx: vec![MacroDmx {
            steps: vec![MacroDmxStep {
                duration: 1f64.to_bits(),
                values: vec![
                    MacroDmxValue { value: DmxValue::new_u8(1, false), dmx_channel: node("Head_Dimmer") },
                    MacroDmxValue { value: DmxValue::new_u8(2, false), dmx_channel: node("Head_Pan") },
                ],
            }],
        }],
    }];
    {
        let r = &m.relations[0];
        assert_eq!(r.master(&m).unwrap().name().as_str(), "Head_Dimmer");
        assert_eq!(r.follower(&m).unwrap().2.name.as_ref().unwrap().as_str(), "Dimmer");
        assert!(m.relation("R").is_some());
        assert!(m.ft_macro("Reset").is_some());
        assert!(m.ft_macros[0].channel_function(&m).is_none());
        assert!(m.ft_macros[0].dmx[0].steps[0].values[0].dmx_channel(&m).is_some());
        assert!(m.dmx_channel("Head_Dimmer").is_some());
        assert!(m.dmx_channel("Head").is_none());
        let master = ModeMasterNode { node: node("Head_Dimmer"), from: DmxValue::default(), to: DmxValue::default() };
        assert!(matches!(master.mode_master(&m), Some(ModeMaster::DmxChannel(_))));
        let master = ModeMasterNode { node: node("Head_Dimmer.Dimmer.Dimmer"), from: DmxValue::default(), to: DmxValue::default() };
        assert!(matches!(master.mode_master(&m), Some(ModeMaster::ChannelFunction(_, _, _))));
    }
    ft.dmx_modes.push(m);
    assert_eq!(
        validate(ft, &[]),
        vec![
            (ValidationObject::Relation, None, "MissingName".to_string()),
            (ValidationObject::Relation, None, "LinkNotFound(DmxChannel, Head_Dimmer.Dimmer)".to_string()),
            (ValidationObject::Relation, None, "LinkNotFound(ChannelFunction, Head_Dimmer.Dimmer)".to_string()),
            (ValidationObject::FtMacro, some("Reset"), "LinkNotFound(ChannelFunction, Head_Dimmer.Dimmer.Reset)".to_string()),
            (ValidationObject::FtMacro, some("Reset"), "LinkNotFound(DmxChannel, Head_Pan)".to_string()),
        ]
    );
}

#[test]
fn lookups_without_links_need_no_names() {
    let ft = fixture("Spot");
    // a mode whose first channel has a logical channel without an attribute link
    let mode = mode("M", vec![channel("Head", vec![logical("", vec![])])]);
    let mut unnamed = mode;
    unnamed.dmx_channels[0].logical_channels[0].attribute = Node::new(vec![]);
    let f = function("Dimmer", "Dimmer");
    let mut result = ValidationResult::new();
    f.validate(&ft, &unnamed, &mut result);
    assert!(result.is_empty());
    let m = FtMacro { name: Some(name("Empty")), channel_function: None, dmx: vec![] };
    let mut result = ValidationResult::new();
    m.validate(&unnamed, &mut result);
    assert!(result.is_empty());
    let two = ModeMasterNode { node: node("a.b"), from: DmxValue::default(), to: DmxValue::default() };
    assert!(two.mode_master(&unnamed).is_none());
}

#[test]
fn geometry_node_follows_names_through_children() {
    let ft = fixture("Spot");
    let at = |s: &str| ft.geometry_node(Node::parse(s).names()).and_then(|g| g.name.as_ref()).map(|n| n.as_str().to_string());
    assert_eq!(at("Base"), Some("Base".to_string()));
    assert_eq!(at("Base.Yoke.Head"), Some("Head".to_string()));
    assert_eq!(at("Yoke"), None);
    assert_eq!(at("Base.Head"), None);
    assert!(ft.geometry_node(&[]).is_none());
    let base = ft.root_geometry("Base").unwrap();
    assert_eq!(base.child_node(Node::parse("Yoke").names()).and_then(|g| g.name.as_ref()).map(|n| n.as_str()), Some("Yoke"));
    assert!(base.child_node(&[]).is_some());
}
