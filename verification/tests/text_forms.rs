use gdtf::dmx_mode::{
    default_channel_function_attribute, default_macro_dmx_step_duration, dmx_channel_highlight_text,
    dmx_channel_offset_text, logical_channel_snap_text, parse_dmx_channel_highlight,
    parse_dmx_channel_offset, parse_logical_channel_snap, parse_wheel_slot_index,
    skip_serializing_logical_channel_snap, wheel_slot_index_text, DmxBreak,
};
use gdtf::fields::{braced_fields, grid_fields, number_fields, take_four, take_three, take_two};
use gdtf::fixture_type::{
    default_fixture_type_can_have_children, fixture_type_can_have_children_text,
    parse_fixture_type_can_have_children,
};
use gdtf::physical_descriptions::default_color_rendering_index;
use gdtf::values::DmxValue;

#[test]
fn dmx_break_text_forms() {
    assert_eq!(DmxBreak::parse("Overwrite"), Some(DmxBreak::Overwrite));
    assert_eq!(DmxBreak::parse("2"), Some(DmxBreak::Value(2)));
    assert_eq!(DmxBreak::parse("-7"), Some(DmxBreak::Value(-7)));
    assert_eq!(DmxBreak::parse("+3"), Some(DmxBreak::Value(3)));
    assert_eq!(DmxBreak::parse("overwrite"), None);
    assert_eq!(DmxBreak::parse(" 1"), None);
    assert_eq!(DmxBreak::parse("2147483648"), None);
    assert_eq!(DmxBreak::default(), DmxBreak::Value(1));
    assert_eq!(DmxBreak::Value(-12).to_text(), "-12");
    assert_eq!(DmxBreak::Overwrite.to_text(), "Overwrite");
    for b in [DmxBreak::Value(i32::MIN), DmxBreak::Value(0), DmxBreak::Value(i32::MAX), DmxBreak::Overwrite] {
        assert_eq!(DmxBreak::parse(&b.to_text()), Some(b));
    }
}

#[test]
fn dmx_channel_offset_text_forms() {
    assert_eq!(parse_dmx_channel_offset("1,2"), Some(Some(vec![1, 2])));
    assert_eq!(parse_dmx_channel_offset("  5 "), Some(Some(vec![5])));
    assert_eq!(parse_dmx_channel_offset("None"), Some(None));
    assert_eq!(parse_dmx_channel_offset(" None "), Some(None));
    assert_eq!(parse_dmx_channel_offset(""), Some(None));
    // the fields themselves are not trimmed
    assert_eq!(parse_dmx_channel_offset("1, 2"), None);
    assert_eq!(parse_dmx_channel_offset("1,,2"), None);
    assert_eq!(parse_dmx_channel_offset("a"), None);
    assert_eq!(dmx_channel_offset_text(&None), "None");
    assert_eq!(dmx_channel_offset_text(&Some(vec![3, -4, 5])), "3,-4,5");
    let offsets = Some(vec![1, 2, 3]);
    assert_eq!(parse_dmx_channel_offset(&dmx_channel_offset_text(&offsets)), Some(offsets));
    // no offsets at all print as the empty text, which reads back as none
    assert_eq!(dmx_channel_offset_text(&Some(vec![])), "");
    assert_eq!(parse_dmx_channel_offset(""), Some(None));
}

#[test]
fn dmx_channel_highlight_text_forms() {
    assert_eq!(parse_dmx_channel_highlight("None"), Some(None));
    assert_eq!(parse_dmx_channel_highlight("255/1"), Some(Some(DmxValue::new_u8(255, false))));
    assert_eq!(parse_dmx_channel_highlight("none"), None);
    assert_eq!(dmx_channel_highlight_text(None), "None");
    assert_eq!(dmx_channel_highlight_text(Some(DmxValue::new_u16(300, true))), "300/2s");
}

#[test]
fn logical_channel_snap_text_forms() {
    assert_eq!(parse_logical_channel_snap("Yes"), Some(true));
    assert_eq!(parse_logical_channel_snap("On"), Some(true));
    assert_eq!(parse_logical_channel_snap("No"), Some(false));
    assert_eq!(parse_logical_channel_snap("Off"), Some(false));
    assert_eq!(parse_logical_channel_snap("yes"), None);
    assert_eq!(logical_channel_snap_text(true), "Yes");
    assert_eq!(logical_channel_snap_text(false), "No");
    assert!(skip_serializing_logical_channel_snap(&false));
    assert!(!skip_serializing_logical_channel_snap(&true));
}

#[test]
fn can_have_children_text_forms() {
    assert_eq!(parse_fixture_type_can_have_children("Yes"), Some(true));
    assert_eq!(parse_fixture_type_can_have_children("No"), Some(false));
    assert_eq!(parse_fixture_type_can_have_children("On"), None);
    assert_eq!(fixture_type_can_have_children_text(false), "No");
    assert!(default_fixture_type_can_have_children());
}

#[test]
fn wheel_slot_index_text_forms() {
    assert_eq!(parse_wheel_slot_index("1"), Some(Some(0)));
    assert_eq!(parse_wheel_slot_index("3"), Some(Some(2)));
    assert_eq!(parse_wheel_slot_index("0"), Some(None));
    assert_eq!(parse_wheel_slot_index("-2"), Some(None));
    assert_eq!(parse_wheel_slot_index("x"), None);
    assert_eq!(wheel_slot_index_text(None), "0");
    assert_eq!(wheel_slot_index_text(Some(0)), "1");
    assert_eq!(wheel_slot_index_text(Some(-5)), "1");
    assert_eq!(parse_wheel_slot_index(&wheel_slot_index_text(Some(41))), Some(Some(41)));
}

#[test]
fn defaults_of_descriptions() {
    assert_eq!(default_channel_function_attribute().to_text(), "NoFeature");
    assert_eq!(f64::from_bits(default_macro_dmx_step_duration()), 1.0);
    assert_eq!(default_color_rendering_index(), 100);
}

#[test]
fn number_fields_split_and_trim() {
    assert_eq!(
        number_fields("0.3127, 0.3290 ,100", 3),
        Some(vec!["0.3127".to_string(), "0.3290".to_string(), "100".to_string()])
    );
    assert_eq!(number_fields("1,2", 3), None);
    assert_eq!(number_fields("1,2,3,4", 3), None);
    assert_eq!(number_fields("", 1), Some(vec!["".to_string()]));
}

#[test]
fn braced_fields_need_both_braces() {
    assert_eq!(
        braced_fields("{1, 2,3}", 3),
        Some(vec!["1".to_string(), "2".to_string(), "3".to_string()])
    );
    assert_eq!(braced_fields("1,2,3", 3), None);
    assert_eq!(braced_fields("{1,2,3", 3), None);
    assert_eq!(braced_fields("{}", 3), None);
}

#[test]
fn grid_fields_split_rows_and_columns() {
    let g = grid_fields("{1,0,0}{0,1,0}{0,0, 1 }", 3, 3).unwrap();
    assert_eq!(g.len(), 3);
    assert_eq!(g[2], vec!["0".to_string(), "0".to_string(), "1".to_string()]);
    assert_eq!(grid_fields("{1,0,0}{0,1,0}", 3, 3), None);
    assert_eq!(grid_fields("{1,0,0}{0,1,0}{0,0,1}{0,0,0}", 3, 3), None);
    assert_eq!(grid_fields("{1,0,0}{0,1}{0,0,1}", 3, 3), None);
    assert_eq!(grid_fields("1,0,0}{0,1,0}{0,0,1}", 3, 3), None);
    assert_eq!(grid_fields("{1,0,0}{0,1,0}{0,0,1", 3, 3), None);
}

#[test]
fn take_fields_exactly() {
    assert_eq!(take_two::<u8, &str>(vec![Ok(1), Ok(2)], "missing"), Ok([1, 2]));
    assert_eq!(take_two::<u8, &str>(vec![Ok(1)], "missing"), Err("missing"));
    assert_eq!(take_two::<u8, &str>(vec![Ok(1), Ok(2), Ok(3)], "missing"), Err("missing"));
    assert_eq!(take_three::<u8, &str>(vec![Ok(1), Err("bad"), Ok(3)], "missing"), Err("bad"));
    assert_eq!(take_three::<u8, &str>(vec![Ok(1), Ok(2), Ok(3)], "missing"), Ok([1, 2, 3]));
    assert_eq!(take_four::<u8, &str>(vec![Ok(1), Ok(2), Ok(3), Ok(4)], "missing"), Ok([1, 2, 3, 4]));
    assert_eq!(take_four::<u8, &str>(vec![Ok(1), Ok(2), Ok(3)], "missing"), Err("missing"));
    // a field after the last one ends it, whatever that field holds
    assert_eq!(take_two::<u8, &str>(vec![Ok(1), Ok(2), Err("bad")], "missing"), Err("missing"));
}
