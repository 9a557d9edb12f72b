use gdtf::physical_descriptions::Ces;
use gdtf::values::{
    is_invalid_name_char, non_empty_string, single, ColorCie, DmxAddress, DmxValue, Matrix, Name,
    Node, Rotation, Vector3, Version,
};

fn name(s: &str) -> Name {
    Name::new(s.to_string()).expect("valid name")
}

#[test]
fn name_accepts_allowed_characters() {
    let n = Name::new("Beam 1-(a)".to_string()).unwrap();
    assert_eq!(n.as_str(), "Beam 1-(a)");
    assert!(n.is("Beam 1-(a)"));
    assert!(!n.is("Beam"));
}

#[test]
fn name_rejects_disallowed_characters_and_returns_the_text() {
    assert_eq!(Name::new("a.b".to_string()).unwrap_err(), "a.b");
    assert_eq!(Name::new("a,b".to_string()).unwrap_err(), "a,b");
    assert_eq!(Name::new("Grün".to_string()).unwrap_err(), "Grün");
}

#[test]
fn name_lossy_replaces_disallowed_characters() {
    assert_eq!(Name::new_lossy("a.b,c".to_string()).as_str(), "a_b_c");
    assert_eq!(Name::new_lossy("Grün".to_string()).as_str(), "Gr_n");
    // a valid name is left as it is, and replacing twice is replacing once
    assert_eq!(Name::new_lossy("Yoke".to_string()).as_str(), "Yoke");
    let once = Name::new_lossy("x.y".to_string());
    let twice = Name::new_lossy(once.to_string());
    assert_eq!(once, twice);
}

#[test]
fn name_character_classes() {
    assert!(is_invalid_name_char('.'));
    assert!(is_invalid_name_char(','));
    assert!(is_invalid_name_char('$'));
    assert!(!is_invalid_name_char('_'));
    assert!(!is_invalid_name_char(' '));
    assert!(!is_invalid_name_char('9'));
}

#[test]
fn name_clone_and_equality() {
    let a = name("Pan");
    let b = a.clone();
    assert_eq!(a, b);
    assert_ne!(a, name("Tilt"));
    assert_eq!(b.into_string(), "Pan");
}

#[test]
fn node_parses_and_prints() {
    let n = Node::parse("Head.Beam.Dimmer");
    let names: Vec<&str> = n.names().iter().map(|x| x.as_str()).collect();
    assert_eq!(names, vec!["Head", "Beam", "Dimmer"]);
    assert_eq!(n.to_text(), "Head.Beam.Dimmer");
    // disallowed characters inside a piece become `_`
    let odd = Node::parse("a,b.c");
    assert_eq!(odd.to_text(), "a_b.c");
    // the empty text is a link of one empty name
    assert_eq!(Node::parse("").names().len(), 1);
}

#[test]
fn node_new_and_single() {
    let n = Node::new(vec![name("Wheel1")]);
    assert_eq!(single(n.names()).map(|x| x.as_str()), Some("Wheel1"));
    let two = Node::new(vec![name("a"), name("b")]);
    assert!(single(two.names()).is_none());
    let none = Node::new(vec![]);
    assert!(single(none.names()).is_none());
    assert_eq!(two.clone().to_text(), "a.b");
}

#[test]
fn node_equality_compares_names() {
    assert_eq!(Node::parse("a.b"), Node::new(vec![name("a"), name("b")]));
    assert_ne!(Node::parse("a.b"), Node::parse("a.c"));
    assert_ne!(Node::parse("a.b"), Node::parse("a"));
    assert_eq!(Node::parse("x").clone(), Node::parse("x"));
}

#[test]
fn non_empty_string_drops_empty_text() {
    assert_eq!(non_empty_string(String::new()), None);
    assert_eq!(non_empty_string("x".to_string()), Some("x".to_string()));
}

#[test]
fn dmx_address_universe_and_address() {
    let a = DmxAddress::from_universe_address(2, 1);
    assert_eq!(a.absolute(), 512);
    assert_eq!(a.universe(), 2);
    assert_eq!(a.address(), 1);
    let b = DmxAddress::from_universe_address(1, 512);
    assert_eq!(b.absolute(), 511);
    assert_eq!(b.universe(), 1);
    assert_eq!(b.address(), 512);
    let c = DmxAddress::from_absolute(1025);
    assert_eq!((c.universe(), c.address()), (3, 2));
}

#[test]
fn dmx_address_out_of_range_parts() {
    // an address above 512 counts on into the next universe
    let a = DmxAddress::from_universe_address(1, 600);
    assert_eq!(a.absolute(), 599);
    assert_eq!((a.universe(), a.address()), (2, 88));
    // universe and address 0 count as 1
    assert_eq!(DmxAddress::from_universe_address(0, 0).absolute(), 0);
    // the highest universe
    let top = DmxAddress::from_universe_address(8388608, 512);
    assert_eq!(top.absolute(), u32::MAX);
    assert_eq!((top.universe(), top.address()), (8388608, 512));
    // the same in text; past the last address of the last universe nothing is read
    assert_eq!(DmxAddress::parse("1.600").map(|a| a.absolute()), Some(599));
    assert_eq!(DmxAddress::parse("8388608.512").map(|a| a.absolute()), Some(u32::MAX));
    assert_eq!(DmxAddress::parse("8388608.513"), None);
}

#[test]
fn dmx_address_text_forms() {
    assert_eq!(DmxAddress::parse("2.1").map(|a| a.absolute()), Some(512));
    assert_eq!(DmxAddress::parse(" 1 . 3 ").map(|a| a.absolute()), Some(2));
    assert_eq!(DmxAddress::parse("513").map(|a| a.absolute()), Some(513));
    assert!(DmxAddress::parse("x").is_none());
    assert!(DmxAddress::parse("1.x").is_none());
    assert!(DmxAddress::parse("").is_none());
    assert_eq!(DmxAddress::from_absolute(513).to_text(), "2.2");
    let back = DmxAddress::parse(&DmxAddress::from_absolute(70000).to_text()).unwrap();
    assert_eq!(back.absolute(), 70000);
}

#[test]
fn dmx_value_constructors() {
    let v = DmxValue::new(255, 1, false).unwrap();
    assert_eq!((v.value(), v.bytes(), v.shifting()), (255, 1, false));
    assert!(DmxValue::new(256, 1, false).is_none());
    assert!(DmxValue::new(65535, 2, true).is_some());
    assert!(DmxValue::new(u64::MAX, 8, false).is_some());
    assert_eq!(DmxValue::new_u16(1000, true).bytes(), 2);
    assert_eq!(DmxValue::new_u32(7, false).bytes(), 4);
    assert_eq!(DmxValue::new_u64(7, false).bytes(), 8);
    let d = DmxValue::default();
    assert_eq!((d.value(), d.bytes(), d.shifting()), (0, 1, false));
}

#[test]
fn dmx_value_mirrors_or_shifts_when_growing() {
    // the examples of the format: 255/1 in a 16 bit channel is 65535, 255/1s is 65280
    assert_eq!(DmxValue::new_u8(255, false).to(2), 65535);
    assert_eq!(DmxValue::new_u8(255, true).to(2), 65280);
    assert_eq!(DmxValue::new_u8(255, false).to_u16(), 65535);
    assert_eq!(DmxValue::new_u8(255, true).to_u16(), 65280);
    assert_eq!(DmxValue::new_u8(0x12, false).to(3), 0x121212);
    assert_eq!(DmxValue::new_u16(0x1234, false).to(3), 0x123412);
    assert_eq!(DmxValue::new_u16(0x1234, false).to(5), 0x1234123412);
    assert_eq!(DmxValue::new_u8(1, false).to_u32(), 0x01010101);
    assert_eq!(DmxValue::new_u8(1, true).to_u64(), 0x0100000000000000);
}

#[test]
fn dmx_value_keeps_most_significant_bytes_when_shrinking() {
    assert_eq!(DmxValue::new_u16(0x1234, false).to(1), 0x12);
    assert_eq!(DmxValue::new_u16(0x1234, true).to_u8(), 0x12);
    assert_eq!(DmxValue::new_u32(0x12345678, false).to(2), 0x1234);
    assert_eq!(DmxValue::new_u8(200, false).to(0), 0);
    // growing and shrinking again gives the value back
    let v = DmxValue::new_u16(0xabcd, false);
    let grown = DmxValue::new(v.to(4), 4, false).unwrap();
    assert_eq!(grown.to(2), 0xabcd);
    assert_eq!(v.to(2), 0xabcd);
}

#[test]
fn dmx_value_of_more_than_eight_bytes() {
    let v = DmxValue::new(0x1234, 9, false).unwrap();
    assert_eq!(v.to(9), 0x1234);
    assert_eq!(v.to(8), 0x12);
    assert_eq!(v.to(1), 0);
    assert_eq!(v.to(0), 0);
}

#[test]
fn dmx_value_text_forms() {
    let v = DmxValue::parse("128/1").unwrap();
    assert_eq!((v.value(), v.bytes(), v.shifting()), (128, 1, false));
    let s = DmxValue::parse("32768/2s").unwrap();
    assert_eq!((s.value(), s.bytes(), s.shifting()), (32768, 2, true));
    // a value too large for its byte count is clamped to the largest that fits
    let c = DmxValue::parse("300/1").unwrap();
    assert_eq!(c.value(), 255);
    assert!(DmxValue::parse("1").is_none());
    // a byte count of 0 counts as 1
    let z = DmxValue::parse("1/0").unwrap();
    assert_eq!((z.value(), z.bytes()), (1, 1));
    assert!(DmxValue::parse("x/1").is_none());
    assert_eq!(DmxValue::new_u8(255, true).to_text(), "255/1s");
    assert_eq!(DmxValue::new_u16(513, false).to_text(), "513/2");
    let back = DmxValue::parse(&DmxValue::new_u32(123456, true).to_text()).unwrap();
    assert_eq!(back, DmxValue::new_u32(123456, true));
}

#[test]
fn version_support_and_text() {
    assert!(Version { major: 1, minor: 2 }.is_supported());
    assert!(Version { major: 1, minor: 0 }.is_supported());
    assert!(!Version { major: 1, minor: 3 }.is_supported());
    assert!(!Version { major: 2, minor: 0 }.is_supported());
    assert_eq!(Version::parse("1.1"), Some(Version { major: 1, minor: 1 }));
    assert!(Version::parse("1").is_none());
    assert!(Version::parse("1.256").is_none());
    assert_eq!(Version { major: 1, minor: 2 }.to_text(), "1.2");
}

#[test]
fn color_and_transform_constants() {
    let w = ColorCie::white();
    assert_eq!(f64::from_bits(w.x), 0.3127);
    assert_eq!(f64::from_bits(w.y), 0.3290);
    assert_eq!(f64::from_bits(w.z), 100.0);
    assert_eq!(Vector3::zero().0, [0, 0, 0]);
    let m = Matrix::identity();
    for i in 0..4 {
        for j in 0..4 {
            let expected = if i == j { 1.0 } else { 0.0 };
            assert_eq!(f64::from_bits(m.0[i][j]), expected);
        }
    }
    let r = Rotation::identity();
    assert_eq!(f64::from_bits(r.0[1][1]), 1.0);
    assert_eq!(f64::from_bits(r.0[0][2]), 0.0);
}

#[test]
fn float_values_compare_as_doubles() {
    let zero = ColorCie { x: 0.0f64.to_bits(), y: 0, z: 0 };
    let negative_zero = ColorCie { x: (-0.0f64).to_bits(), y: 0, z: 0 };
    assert!(zero == negative_zero);
    let nan = ColorCie { x: f64::NAN.to_bits(), y: 0, z: 0 };
    let same_nan = nan;
    assert!(nan != same_nan);
    assert!(ColorCie::white() == ColorCie::white());
    assert!(ColorCie::white() != zero);

    assert!(Vector3::zero() == Vector3([0, (-0.0f64).to_bits(), 0]));
    assert!(Vector3::zero() != Vector3([0, 1.0f64.to_bits(), 0]));
    assert!(Vector3([f64::NAN.to_bits(), 0, 0]) != Vector3([f64::NAN.to_bits(), 0, 0]));

    let mut m = Matrix::identity();
    m.0[2][3] = (-0.0f64).to_bits();
    assert!(m == Matrix::identity());
    m.0[3][3] = 2.0f64.to_bits();
    assert!(m != Matrix::identity());

    let mut r = Rotation::identity();
    r.0[0][1] = (-0.0f64).to_bits();
    assert!(r == Rotation::identity());
    r.0[2][2] = f64::NAN.to_bits();
    assert!(r != r.clone());
}

#[test]
fn color_sample_range_and_text() {
    assert!(Ces::new(0).is_none());
    assert!(Ces::new(100).is_none());
    assert_eq!(Ces::new(5).unwrap().get(), 5);
    assert_eq!(Ces::new(5).unwrap().to_text(), "CES05");
    assert_eq!(Ces::new(42).unwrap().to_text(), "CES42");
    assert_eq!(Ces::parse("CES07").map(|c| c.get()), Some(7));
    assert!(Ces::parse("CES00").is_none());
    assert!(Ces::parse("XYZ01").is_none());
    let back = Ces::parse(&Ces::new(99).unwrap().to_text()).unwrap();
    assert_eq!(back.get(), 99);
}
